use vstd::prelude::*;

use crate::error::Error;

verus! {

/// What SHA-224 returns for the given bytes. The digest itself is
/// only named here: computing it is the TLS library's work.
pub uninterp spec fn sha224_of(data: Seq<u8>) -> Seq<u8>;

/// Relies on openssl::sha::sha224: the 28-octet SHA-224 digest of
/// `data`, a function of `data` alone.
#[verifier::external_body]
pub fn sha224(data: &[u8]) -> (r: [u8; 28])
    ensures
        r@ == sha224_of(data@),
{
    openssl::sha::sha224(data)
}

/// The lower-case hex digit for a nibble value below 16.
pub open spec fn hex_digit(v: u8) -> u8
    recommends
        v < 16,
{
    if v < 10 {
        (v + 0x30) as u8
    } else {
        (v + 0x57) as u8
    }
}

/// Two lower-case hex digits for each byte, high nibble first.
pub open spec fn hex_of(data: Seq<u8>) -> Seq<u8> {
    Seq::new(
        2 * data.len(),
        |i: int|
            if i % 2 == 0 {
                hex_digit((data[i / 2] / 16) as u8)
            } else {
                hex_digit((data[i / 2] % 16) as u8)
            },
    )
}

/// Renders bytes as lower-case hex, two digits per byte.
pub trait ToHex {
    /// The bytes that the rendering covers.
    spec fn hex_input(&self) -> Seq<u8>;

    /// The lower-case hex rendering of `hex_input`, as ASCII bytes.
    fn to_hex(&self) -> (r: Vec<u8>)
        ensures
            r@ == hex_of(self.hex_input()),
    ;
}

impl ToHex for [u8] {
    open spec fn hex_input(&self) -> Seq<u8> {
        self@
    }

    fn to_hex(&self) -> (r: Vec<u8>) {
        let mut v: Vec<u8> = Vec::new();
        let mut i: usize = 0;
        while i < self.len()
            invariant
                i <= self@.len(),
                v@ == hex_of(self@.take(i as int)),
            decreases self@.len() - i,
        {
            let b = self[i];
            v.push(if b / 16 < 10 { b / 16 + 0x30 } else { b / 16 + 0x57 });
            v.push(if b % 16 < 10 { b % 16 + 0x30 } else { b % 16 + 0x57 });
            i = i + 1;
            proof {
                assert(v@ =~= hex_of(self@.take(i as int)));
            }
        }
        proof {
            assert(self@.take(self@.len() as int) =~= self@);
        }
        v
    }
}

/// Turns an optional value into a result, reporting a protocol fault
/// where the value is absent.
pub trait IntoResult<T>: Sized {
    /// The value carried, if any.
    spec fn success(&self) -> Option<T>;

    fn into_result(self) -> (r: Result<T, Error>)
        ensures
            match self.success() {
                Some(v) => r == Result::<T, Error>::Ok(v),
                None => r == Result::<T, Error>::Err(Error::ProtocolError),
            },
    ;
}

impl<T> IntoResult<T> for Option<T> {
    open spec fn success(&self) -> Option<T> {
        *self
    }

    fn into_result(self) -> (r: Result<T, Error>) {
        match self {
            Some(v) => Ok(v),
            None => Err(Error::ProtocolError),
        }
    }
}

/// ASCII whitespace, as the rule-file parser strips it.
pub open spec fn is_ascii_space(b: u8) -> bool {
    b == 0x20 || b == 0x09 || b == 0x0a || b == 0x0d || b == 0x0b || b == 0x0c
}

/// `s` with leading ASCII whitespace removed.
pub open spec fn trim_start_of(s: Seq<u8>) -> Seq<u8>
    decreases s.len(),
{
    if s.len() > 0 && is_ascii_space(s[0]) {
        trim_start_of(s.drop_first())
    } else {
        s
    }
}

/// `s` with trailing ASCII whitespace removed.
pub open spec fn trim_end_of(s: Seq<u8>) -> Seq<u8>
    decreases s.len(),
{
    if s.len() > 0 && is_ascii_space(s.last()) {
        trim_end_of(s.drop_last())
    } else {
        s
    }
}

/// `s` with both leading and trailing ASCII whitespace removed.
pub open spec fn trim_of(s: Seq<u8>) -> Seq<u8> {
    trim_end_of(trim_start_of(s))
}

proof fn lemma_trim_start_skip(s: Seq<u8>, k: int)
    requires
        0 <= k <= s.len(),
        forall|i: int| 0 <= i < k ==> is_ascii_space(s[i]),
        k < s.len() ==> !is_ascii_space(s[k]),
    ensures
        trim_start_of(s) == s.skip(k),
    decreases k,
{
    if k == 0 {
        assert(s.skip(0) =~= s);
    } else {
        assert(is_ascii_space(s[0]));
        lemma_trim_start_skip(s.drop_first(), k - 1);
        assert(s.drop_first().skip(k - 1) =~= s.skip(k));
    }
}

proof fn lemma_trim_end_take(s: Seq<u8>, k: int)
    requires
        0 <= k <= s.len(),
        forall|i: int| k <= i < s.len() ==> is_ascii_space(s[i]),
        k > 0 ==> !is_ascii_space(s[k - 1]),
    ensures
        trim_end_of(s) == s.take(k),
    decreases s.len() - k,
{
    if k == s.len() {
        if s.len() > 0 && is_ascii_space(s.last()) {
            assert(!is_ascii_space(s[k - 1]));
            assert(false);
        }
        assert(s.take(k) =~= s);
    } else {
        assert(is_ascii_space(s.last()));
        lemma_trim_end_take(s.drop_last(), k);
        assert(s.drop_last().take(k) =~= s.take(k));
    }
}

/// Tells ASCII whitespace apart from rule text.
fn space_byte(b: u8) -> (r: bool)
    ensures
        r == is_ascii_space(b),
{
    b == 0x20 || b == 0x09 || b == 0x0a || b == 0x0d || b == 0x0b || b == 0x0c
}

/// Strips surrounding ASCII whitespace without reallocating the value away.
pub trait TrimInPlace {
    /// The bytes held before or after the call.
    spec fn trim_view(&self) -> Seq<u8>;

    fn trim_in_place(&mut self)
        ensures
            final(self).trim_view() == trim_of(old(self).trim_view()),
    ;
}

impl TrimInPlace for Vec<u8> {
    open spec fn trim_view(&self) -> Seq<u8> {
        self@
    }

    fn trim_in_place(&mut self) {
        let ghost orig: Seq<u8> = self@;
        let mut start: usize = 0;
        while start < self.len() && space_byte(self[start])
            invariant
                start <= orig.len(),
                self@ == orig,
                forall|i: int| 0 <= i < start ==> is_ascii_space(orig[i]),
            decreases orig.len() - start,
        {
            start = start + 1;
        }
        proof {
            lemma_trim_start_skip(orig, start as int);
        }
        let mut end: usize = self.len();
        while end > start && space_byte(self[end - 1])
            invariant
                start <= end <= orig.len(),
                self@ == orig,
                forall|i: int| end <= i < orig.len() ==> is_ascii_space(orig[i]),
            decreases end,
        {
            end = end - 1;
        }
        let ghost mid: Seq<u8> = orig.skip(start as int);
        proof {
            if end > start {
                assert(!is_ascii_space(mid[end - start - 1]));
            }
            if start < orig.len() && end == start {
                assert(is_ascii_space(orig[start as int]));
                assert(!is_ascii_space(mid[0]));
                assert(false);
            }
            lemma_trim_end_take(mid, end - start);
        }
        let mut out: Vec<u8> = Vec::new();
        let mut i: usize = start;
        while i < end
            invariant
                start <= i <= end <= orig.len(),
                self@ == orig,
                out@ == orig.subrange(start as int, i as int),
            decreases end - i,
        {
            out.push(self[i]);
            i = i + 1;
        }
        proof {
            assert(orig.subrange(start as int, end as int) =~= mid.take(end - start));
        }
        *self = out;
    }
}

} // verus!
