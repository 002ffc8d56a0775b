use vstd::prelude::*;

verus! {

/// An ASCII decimal digit.
pub open spec fn is_digit(b: u8) -> bool {
    0x30 <= b <= 0x39
}

/// An ASCII letter.
pub open spec fn is_alpha(b: u8) -> bool {
    (0x41 <= b <= 0x5a) || (0x61 <= b <= 0x7a)
}

/// A character a domain label may hold: letters, digits, underscore,
/// hyphen.
pub open spec fn is_label_char(b: u8) -> bool {
    is_alpha(b) || is_digit(b) || b == 0x5f || b == 0x2d
}

/// The ASCII lower-case form of one octet.
pub open spec fn lower_byte(b: u8) -> u8 {
    if 0x41 <= b <= 0x5a {
        (b + 0x20) as u8
    } else {
        b
    }
}

/// The ASCII lower-case form of an octet sequence.
pub open spec fn lower_seq(s: Seq<u8>) -> Seq<u8> {
    s.map_values(|b: u8| lower_byte(b))
}

/// Lower-cases ASCII letters, leaving other octets alone.
pub fn to_lower(v: &[u8]) -> (r: Vec<u8>)
    ensures
        r@ == lower_seq(v@),
{
    let mut out: Vec<u8> = Vec::new();
    let mut i: usize = 0;
    while i < v.len()
        invariant
            i <= v@.len(),
            out@ == lower_seq(v@.take(i as int)),
        decreases v@.len() - i,
    {
        let b = v[i];
        out.push(if 0x41 <= b && b <= 0x5a { b + 0x20 } else { b });
        i = i + 1;
        proof {
            assert(out@ =~= lower_seq(v@.take(i as int)));
        }
    }
    proof {
        assert(v@.take(v@.len() as int) =~= v@);
    }
    out
}

/// The value of a decimal digit string, most significant first.
pub open spec fn dec_val(s: Seq<u8>) -> int
    decreases s.len(),
{
    if s.len() == 0 {
        0
    } else {
        10 * dec_val(s.drop_last()) + (s.last() - 0x30)
    }
}

/// Every octet in `[a, b)` of `s` is a digit, and the run is non-empty.
pub open spec fn digit_run(s: Seq<u8>, a: int, b: int) -> bool {
    b - a >= 1 && forall|i: int| a <= i < b ==> is_digit(#[trigger] s[i])
}

/// A decimal octet as the dotted-quad grammar admits it: one to three
/// digits, value at most 255, no leading zero.
pub open spec fn valid_octet(s: Seq<u8>) -> bool {
    &&& 1 <= s.len() <= 3
    &&& digit_run(s, 0, s.len() as int)
    &&& dec_val(s) <= 255
    &&& s.len() > 1 ==> s[0] != 0x30
}

/// The value of a digit string never shrinks as digits are appended.
proof fn lemma_dec_val_prefix(s: Seq<u8>, j: int)
    requires
        0 <= j <= s.len(),
        forall|i: int| 0 <= i < s.len() ==> is_digit(#[trigger] s[i]),
    ensures
        0 <= dec_val(s.take(j)) <= dec_val(s),
    decreases s.len() - j,
{
    if j == s.len() {
        assert(s.take(j) =~= s);
        lemma_dec_val_nonneg(s);
    } else {
        lemma_dec_val_prefix(s, j + 1);
        assert(s.take(j + 1).drop_last() =~= s.take(j));
        assert(is_digit(s.take(j + 1).last()));
        lemma_dec_val_nonneg(s.take(j));
    }
}

proof fn lemma_dec_val_nonneg(s: Seq<u8>)
    requires
        forall|i: int| 0 <= i < s.len() ==> is_digit(#[trigger] s[i]),
    ensures
        dec_val(s) >= 0,
    decreases s.len(),
{
    if s.len() > 0 {
        assert(s.drop_last() =~= s.take(s.len() - 1));
        assert(forall|i: int|
            0 <= i < s.drop_last().len() ==> is_digit(#[trigger] s.drop_last()[i]));
        lemma_dec_val_nonneg(s.drop_last());
    }
}

/// The first position at or after `i` where `s` holds the given octet,
/// or the length of `s` where none does.
pub open spec fn find_from(s: Seq<u8>, i: int, b: u8) -> int
    decreases s.len() - i,
{
    if i < 0 || i >= s.len() {
        s.len() as int
    } else if s[i] == b {
        i
    } else {
        find_from(s, i + 1, b)
    }
}

/// Scans for an octet, reporting the first position at or after `from`.
pub fn scan_for(s: &[u8], from: usize, b: u8) -> (r: usize)
    requires
        from <= s@.len(),
    ensures
        r == find_from(s@, from as int, b),
        from <= r <= s@.len(),
        r < s@.len() ==> s@[r as int] == b,
{
    let mut i = from;
    while i < s.len()
        invariant
            from <= i <= s@.len(),
            find_from(s@, from as int, b) == find_from(s@, i as int, b),
        decreases s@.len() - i,
    {
        if s[i] == b {
            return i;
        }
        i = i + 1;
    }
    s.len()
}

/// Parses the decimal octet in `[start, end)`; yields its value
/// exactly when the run is a valid dotted-quad octet.
fn parse_octet(s: &[u8], start: usize, end: usize) -> (r: Option<u8>)
    requires
        start <= end <= s@.len(),
    ensures
        match r {
            Some(v) => valid_octet(s@.subrange(start as int, end as int)) && v == dec_val(
                s@.subrange(start as int, end as int),
            ),
            None => !valid_octet(s@.subrange(start as int, end as int)),
        },
{
    let ghost oct = s@.subrange(start as int, end as int);
    let len = end - start;
    if len < 1 || len > 3 {
        return None;
    }
    if len > 1 && s[start] == 0x30 {
        return None;
    }
    let mut acc: u16 = 0;
    let mut j = start;
    while j < end
        invariant
            start <= j <= end <= s@.len(),
            1 <= end - start <= 3,
            oct == s@.subrange(start as int, end as int),
            forall|i: int| start <= i < j ==> is_digit(#[trigger] s@[i]),
            acc == dec_val(s@.subrange(start as int, j as int)),
            j - start == 0 ==> acc == 0,
            j - start == 1 ==> acc <= 9,
            j - start == 2 ==> acc <= 99,
            j - start == 3 ==> acc <= 999,
        decreases end - j,
    {
        let b = s[j];
        if b < 0x30 || b > 0x39 {
            proof {
                assert(!is_digit(oct[j - start]));
                assert(!digit_run(oct, 0, oct.len() as int));
            }
            return None;
        }
        proof {
            assert(s@.subrange(start as int, j + 1).drop_last() =~= s@.subrange(
                start as int,
                j as int,
            ));
        }
        acc = 10 * acc + (b - 0x30) as u16;
        j = j + 1;
    }
    proof {
        assert(s@.subrange(start as int, end as int) =~= oct);
    }
    if acc > 255 {
        return None;
    }
    proof {
        assert(forall|i: int| 0 <= i < oct.len() ==> is_digit(#[trigger] oct[i]));
    }
    Some(acc as u8)
}

/// What a dotted-quad IPv4 literal denotes: the 32-bit address for
/// four valid octets separated by dots, nothing otherwise. Octets over
/// 255 or with leading zeros are refused, as the standard library's
/// address parser refuses them.
pub open spec fn spec_ipv4_literal(s: Seq<u8>) -> Option<u32> {
    let i1 = find_from(s, 0, 0x2e);
    let i2 = find_from(s, i1 + 1, 0x2e);
    let i3 = find_from(s, i2 + 1, 0x2e);
    let i4 = find_from(s, i3 + 1, 0x2e);
    if i1 < s.len() && i2 < s.len() && i3 < s.len() && i4 == s.len() && valid_octet(
        s.subrange(0, i1),
    ) && valid_octet(s.subrange(i1 + 1, i2)) && valid_octet(s.subrange(i2 + 1, i3))
        && valid_octet(s.subrange(i3 + 1, s.len() as int)) {
        Some(
            (dec_val(s.subrange(0, i1)) * 0x1000000 + dec_val(s.subrange(i1 + 1, i2)) * 0x10000
                + dec_val(s.subrange(i2 + 1, i3)) * 0x100 + dec_val(
                s.subrange(i3 + 1, s.len() as int),
            )) as u32,
        )
    } else {
        None
    }
}

/// Parses a dotted-quad IPv4 literal.
pub fn parse_ipv4_literal(s: &[u8]) -> (r: Option<u32>)
    ensures
        r == spec_ipv4_literal(s@),
{
    let i1 = scan_for(s, 0, 0x2e);
    if i1 == s.len() {
        return None;
    }
    let i2 = scan_for(s, i1 + 1, 0x2e);
    if i2 == s.len() {
        return None;
    }
    let i3 = scan_for(s, i2 + 1, 0x2e);
    if i3 == s.len() {
        return None;
    }
    let i4 = scan_for(s, i3 + 1, 0x2e);
    if i4 != s.len() {
        return None;
    }
    let a = match parse_octet(s, 0, i1) {
        Some(v) => v,
        None => {
            return None;
        },
    };
    let b = match parse_octet(s, i1 + 1, i2) {
        Some(v) => v,
        None => {
            return None;
        },
    };
    let c = match parse_octet(s, i2 + 1, i3) {
        Some(v) => v,
        None => {
            return None;
        },
    };
    let d = match parse_octet(s, i3 + 1, s.len()) {
        Some(v) => v,
        None => {
            return None;
        },
    };
    Some((a as u32) * 0x1000000 + (b as u32) * 0x10000 + (c as u32) * 0x100 + (d as u32))
}

/// The rule grammar's IPv4 shape: three dot-separated digit runs, a
/// fourth digit run, then an optional slash and digit run.
pub open spec fn is_cidr_shape(t: Seq<u8>) -> bool {
    let sl = find_from(t, 0, 0x2f);
    let head = t.subrange(0, sl);
    let i1 = find_from(head, 0, 0x2e);
    let i2 = find_from(head, i1 + 1, 0x2e);
    let i3 = find_from(head, i2 + 1, 0x2e);
    let i4 = find_from(head, i3 + 1, 0x2e);
    &&& i1 < head.len()
    &&& i2 < head.len()
    &&& i3 < head.len()
    &&& i4 == head.len()
    &&& digit_run(head, 0, i1)
    &&& digit_run(head, i1 + 1, i2)
    &&& digit_run(head, i2 + 1, i3)
    &&& digit_run(head, i3 + 1, head.len() as int)
    &&& sl < t.len() ==> digit_run(t, sl + 1, t.len() as int)
}

/// What a CIDR rule denotes: the address of its dotted quad and the
/// prefix length after the slash, 32 where the slash is absent. A bad
/// octet, a prefix value over 32, or digits overflowing a byte yield
/// nothing, and the rule line is then refused.
pub open spec fn spec_parse_cidr(t: Seq<u8>) -> Option<(u32, u8)> {
    let sl = find_from(t, 0, 0x2f);
    match spec_ipv4_literal(t.subrange(0, sl)) {
        Some(ip) => {
            if sl == t.len() {
                Some((ip, 32))
            } else {
                let d = t.subrange(sl + 1, t.len() as int);
                if d.len() >= 1 && digit_run(d, 0, d.len() as int) && dec_val(d) <= 32 {
                    Some((ip, dec_val(d) as u8))
                } else {
                    None
                }
            }
        },
        None => None,
    }
}

/// Parses the digit run after a slash as a prefix length of at most 32.
fn parse_prefix_len(t: &[u8], from: usize) -> (r: Option<u8>)
    requires
        from <= t@.len(),
    ensures
        ({
            let d = t@.subrange(from as int, t@.len() as int);
            match r {
                Some(v) => d.len() >= 1 && digit_run(d, 0, d.len() as int) && dec_val(d) <= 32 && v
                    == dec_val(d),
                None => !(d.len() >= 1 && digit_run(d, 0, d.len() as int) && dec_val(d) <= 32),
            }
        }),
{
    let ghost d = t@.subrange(from as int, t@.len() as int);
    if from == t.len() {
        return None;
    }
    let mut acc: u32 = 0;
    let mut j = from;
    while j < t.len()
        invariant
            from <= j <= t@.len(),
            from < t@.len(),
            d == t@.subrange(from as int, t@.len() as int),
            forall|i: int| from <= i < j ==> is_digit(#[trigger] t@[i]),
            acc == dec_val(t@.subrange(from as int, j as int)),
            acc <= 32,
        decreases t@.len() - j,
    {
        let b = t[j];
        if b < 0x30 || b > 0x39 {
            proof {
                assert(!is_digit(d[j - from]));
            }
            return None;
        }
        proof {
            assert(t@.subrange(from as int, j + 1).drop_last() =~= t@.subrange(
                from as int,
                j as int,
            ));
        }
        let next = 10 * acc + (b - 0x30) as u32;
        if next > 32 {
            proof {
                if digit_run(d, 0, d.len() as int) {
                    lemma_dec_val_prefix(d, j + 1 - from);
                    assert(d.take(j + 1 - from) =~= t@.subrange(from as int, j + 1));
                    assert(t@.subrange(from as int, j + 1).drop_last() =~= t@.subrange(
                        from as int,
                        j as int,
                    ));
                    assert(dec_val(d) >= next);
                }
            }
            return None;
        }
        acc = next;
        j = j + 1;
    }
    proof {
        assert(t@.subrange(from as int, t@.len() as int) =~= d);
        assert forall|i: int| 0 <= i < d.len() implies is_digit(#[trigger] d[i]) by {
            assert(d[i] == t@[from + i]);
            assert(is_digit(t@[from + i]));
        }
    }
    Some(acc as u8)
}

/// Tells whether the line has the CIDR rule shape.
pub fn is_cidr_line(t: &[u8]) -> (r: bool)
    ensures
        r == is_cidr_shape(t@),
{
    let sl = scan_for(t, 0, 0x2f);
    let ghost head = t@.subrange(0, sl as int);
    if !digit_shape_quad(t, sl) {
        return false;
    }
    if sl < t.len() {
        let mut j = sl + 1;
        if j == t.len() {
            return false;
        }
        while j < t.len()
            invariant
                sl < j <= t@.len(),
                sl == find_from(t@, 0, 0x2f),
                forall|i: int| sl < i < j ==> is_digit(#[trigger] t@[i]),
            decreases t@.len() - j,
        {
            let b = t[j];
            if b < 0x30 || b > 0x39 {
                proof {
                    assert(!is_digit(t@[j as int]));
                }
                return false;
            }
            j = j + 1;
        }
    }
    true
}

/// Tells whether `[0, sl)` of `t` is four dot-separated digit runs.
fn digit_shape_quad(t: &[u8], sl: usize) -> (r: bool)
    requires
        sl <= t@.len(),
    ensures
        ({
            let head = t@.subrange(0, sl as int);
            let i1 = find_from(head, 0, 0x2e);
            let i2 = find_from(head, i1 + 1, 0x2e);
            let i3 = find_from(head, i2 + 1, 0x2e);
            let i4 = find_from(head, i3 + 1, 0x2e);
            r == (i1 < head.len() && i2 < head.len() && i3 < head.len() && i4 == head.len()
                && digit_run(head, 0, i1) && digit_run(head, i1 + 1, i2) && digit_run(
                head,
                i2 + 1,
                i3,
            ) && digit_run(head, i3 + 1, head.len() as int))
        }),
{
    let ghost head = t@.subrange(0, sl as int);
    let hs = vstd::slice::slice_subrange(t, 0, sl);
    let i1 = scan_for(hs, 0, 0x2e);
    if i1 == hs.len() {
        return false;
    }
    let i2 = scan_for(hs, i1 + 1, 0x2e);
    if i2 == hs.len() {
        return false;
    }
    let i3 = scan_for(hs, i2 + 1, 0x2e);
    if i3 == hs.len() {
        return false;
    }
    let i4 = scan_for(hs, i3 + 1, 0x2e);
    if i4 != hs.len() {
        return false;
    }
    if !digit_run_check(hs, 0, i1) {
        return false;
    }
    if !digit_run_check(hs, i1 + 1, i2) {
        return false;
    }
    if !digit_run_check(hs, i2 + 1, i3) {
        return false;
    }
    if !digit_run_check(hs, i3 + 1, hs.len()) {
        return false;
    }
    true
}

/// Tells whether `[a, b)` of `s` is a non-empty digit run.
fn digit_run_check(s: &[u8], a: usize, b: usize) -> (r: bool)
    requires
        a <= b <= s@.len(),
    ensures
        r == digit_run(s@, a as int, b as int),
{
    if b - a < 1 {
        return false;
    }
    let mut j = a;
    while j < b
        invariant
            a <= j <= b <= s@.len(),
            forall|i: int| a <= i < j ==> is_digit(#[trigger] s@[i]),
        decreases b - j,
    {
        let c = s[j];
        if c < 0x30 || c > 0x39 {
            proof {
                assert(!is_digit(s@[j as int]));
            }
            return false;
        }
        j = j + 1;
    }
    true
}

/// Parses a CIDR rule line.
pub fn parse_cidr(t: &[u8]) -> (r: Option<(u32, u8)>)
    ensures
        r == spec_parse_cidr(t@),
        r matches Some(v) ==> v.1 <= 32,
{
    let sl = scan_for(t, 0, 0x2f);
    let ip = match parse_ipv4_literal(vstd::slice::slice_subrange(t, 0, sl)) {
        Some(v) => v,
        None => {
            return None;
        },
    };
    if sl == t.len() {
        return Some((ip, 32));
    }
    match parse_prefix_len(t, sl + 1) {
        Some(p) => Some((ip, p)),
        None => None,
    }
}

/// The largest position before `i` where `s` holds a dot, or -1.
pub open spec fn last_dot_before(s: Seq<u8>, i: int) -> int
    decreases i,
{
    if i <= 0 {
        -1
    } else if s[i - 1] == 0x2e {
        i - 1
    } else {
        last_dot_before(s, i - 1)
    }
}

/// The rule grammar's domain shape: dot-separated labels of letters,
/// digits, underscores and hyphens, ending in a final label of two to
/// 63 letters.
pub open spec fn is_domain_shape(b: Seq<u8>) -> bool {
    let ld = last_dot_before(b, b.len() as int);
    &&& 2 <= b.len() - (ld + 1) <= 63
    &&& forall|i: int| ld < i < b.len() ==> is_alpha(#[trigger] b[i])
    &&& forall|i: int| 0 <= i <= ld ==> ((#[trigger] b[i]) == 0x2e || is_label_char(b[i]))
    &&& ld >= 0 ==> b[0] != 0x2e
    &&& forall|i: int| 1 <= i <= ld ==> !((#[trigger] b[i]) == 0x2e && b[i - 1] == 0x2e)
}

/// A domain rule line: an optional caret marking an exact match, then
/// a domain of the rule grammar's shape.
pub open spec fn is_domain_pattern(t: Seq<u8>) -> bool {
    t.len() >= 1 && if t[0] == 0x5e {
        is_domain_shape(t.skip(1))
    } else {
        is_domain_shape(t)
    }
}

/// Scans backwards for the last dot; the result is one past it, or
/// zero where the sequence holds none.
fn scan_last_dot(b: &[u8]) -> (r: usize)
    ensures
        r as int == last_dot_before(b@, b@.len() as int) + 1,
        r <= b@.len(),
{
    let mut i = b.len();
    while i > 0
        invariant
            i <= b@.len(),
            last_dot_before(b@, b@.len() as int) == last_dot_before(b@, i as int),
        decreases i,
    {
        if b[i - 1] == 0x2e {
            return i;
        }
        i = i - 1;
    }
    0
}

/// Tells whether `b` has the domain shape of the rule grammar.
fn domain_shape_check(b: &[u8]) -> (r: bool)
    ensures
        r == is_domain_shape(b@),
{
    let ghost ld = last_dot_before(b@, b@.len() as int);
    let dotpos = scan_last_dot(b);
    proof {
        assert(dotpos as int == ld + 1);
    }
    let tail_len = b.len() - dotpos;
    if tail_len < 2 || tail_len > 63 {
        return false;
    }
    let mut i = dotpos;
    while i < b.len()
        invariant
            dotpos <= i <= b@.len(),
            ld == last_dot_before(b@, b@.len() as int),
            dotpos as int == ld + 1,
            forall|k: int| ld < k < i ==> is_alpha(#[trigger] b@[k]),
        decreases b@.len() - i,
    {
        let c = b[i];
        if !((0x41 <= c && c <= 0x5a) || (0x61 <= c && c <= 0x7a)) {
            proof {
                assert(!is_alpha(b@[i as int]));
            }
            return false;
        }
        i = i + 1;
    }
    let mut j: usize = 0;
    while j < dotpos
        invariant
            j <= dotpos,
            ld == last_dot_before(b@, b@.len() as int),
            dotpos as int == ld + 1,
            dotpos <= b@.len(),
            2 <= b@.len() - (ld + 1) <= 63,
            forall|k: int| ld < k < b@.len() ==> is_alpha(#[trigger] b@[k]),
            forall|k: int| 0 <= k < j ==> ((#[trigger] b@[k]) == 0x2e || is_label_char(b@[k])),
            j > 0 ==> b@[0] != 0x2e,
            forall|k: int| 1 <= k < j ==> !((#[trigger] b@[k]) == 0x2e && b@[k - 1] == 0x2e),
        decreases dotpos - j,
    {
        let c = b[j];
        if c == 0x2e {
            if j == 0 {
                proof {
                    assert(b@[0] == 0x2e);
                }
                return false;
            }
            if b[j - 1] == 0x2e {
                proof {
                    assert(b@[j as int] == 0x2e && b@[j as int - 1] == 0x2e);
                }
                return false;
            }
        } else {
            if !((0x41 <= c && c <= 0x5a) || (0x61 <= c && c <= 0x7a) || (0x30 <= c && c <= 0x39)
                || c == 0x5f || c == 0x2d) {
                proof {
                    assert(!is_label_char(b@[j as int]));
                    assert(b@[j as int] != 0x2e);
                }
                return false;
            }
        }
        j = j + 1;
    }
    true
}

/// Tells whether the line is a domain rule of the grammar.
pub fn is_domain_line(t: &[u8]) -> (r: bool)
    ensures
        r == is_domain_pattern(t@),
{
    if t.len() < 1 {
        return false;
    }
    if t[0] == 0x5e {
        let rest = vstd::slice::slice_subrange(t, 1, t.len());
        let r = domain_shape_check(rest);
        proof {
            assert(rest@ =~= t@.skip(1));
        }
        r
    } else {
        domain_shape_check(t)
    }
}

} // verus!
