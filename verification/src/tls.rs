use vstd::prelude::*;

verus! {

/// One protocol's contribution to the ALPN extension: its length
/// octet and its bytes, or nothing for an empty name.
pub open spec fn alpn_item(p: Seq<u8>) -> Seq<u8> {
    if p.len() == 0 {
        Seq::empty()
    } else {
        seq![p.len() as u8] + p
    }
}

/// The wire form of an ALPN protocol list: each non-empty protocol
/// length-prefixed, in order.
pub open spec fn spec_alpn_encoding(protos: Seq<Seq<u8>>) -> Seq<u8>
    decreases protos.len(),
{
    if protos.len() == 0 {
        Seq::empty()
    } else {
        alpn_item(protos.first()) + spec_alpn_encoding(protos.drop_first())
    }
}

proof fn lemma_alpn_snoc(protos: Seq<Seq<u8>>, x: Seq<u8>)
    ensures
        spec_alpn_encoding(protos.push(x)) == spec_alpn_encoding(protos) + alpn_item(x),
    decreases protos.len(),
{
    if protos.len() == 0 {
        assert(protos.push(x).first() == x);
        assert(protos.push(x).drop_first() =~= Seq::<Seq<u8>>::empty());
        assert(spec_alpn_encoding(Seq::<Seq<u8>>::empty()) == Seq::<u8>::empty());
        assert(spec_alpn_encoding(protos.push(x)) =~= alpn_item(x) + Seq::<u8>::empty());
        assert(alpn_item(x) + Seq::<u8>::empty() =~= alpn_item(x));
        assert(spec_alpn_encoding(protos) + alpn_item(x) =~= alpn_item(x));
    } else {
        assert(protos.push(x).first() == protos.first());
        assert(protos.push(x).drop_first() =~= protos.drop_first().push(x));
        lemma_alpn_snoc(protos.drop_first(), x);
        assert(spec_alpn_encoding(protos.push(x)) =~= spec_alpn_encoding(protos) + alpn_item(x));
    }
}

/// Encodes the configured ALPN protocols for the TLS handshake:
/// every non-empty protocol name, length-prefixed. Each name must
/// fit its one-octet length.
pub fn encode_alpn(alpn: &Vec<String>) -> (r: Vec<u8>)
    requires
        forall|i: int|
            0 <= i < alpn@.len() ==> vstd::utf8::encode_utf8(#[trigger] alpn@[i]@).len() <= 255,
    ensures
        r@ == spec_alpn_encoding(
            alpn@.map_values(|s: String| vstd::utf8::encode_utf8(s@)),
        ),
{
    let ghost mapped = alpn@.map_values(|s: String| vstd::utf8::encode_utf8(s@));
    let mut r: Vec<u8> = Vec::new();
    let mut i: usize = 0;
    while i < alpn.len()
        invariant
            i <= alpn@.len(),
            mapped == alpn@.map_values(|s: String| vstd::utf8::encode_utf8(s@)),
            forall|k: int|
                0 <= k < alpn@.len() ==> vstd::utf8::encode_utf8(#[trigger] alpn@[k]@).len()
                    <= 255,
            r@ == spec_alpn_encoding(mapped.take(i as int)),
        decreases alpn@.len() - i,
    {
        let bs = alpn[i].as_str().as_bytes();
        proof {
            assert(bs@ == mapped[i as int]);
        }
        if bs.len() > 0 {
            r.push(bs.len() as u8);
            r.extend_from_slice(bs);
        }
        proof {
            assert(mapped.take(i + 1) =~= mapped.take(i as int).push(mapped[i as int]));
            lemma_alpn_snoc(mapped.take(i as int), mapped[i as int]);
            assert(r@ =~= spec_alpn_encoding(mapped.take(i + 1)));
        }
        i = i + 1;
    }
    proof {
        assert(mapped.take(mapped.len() as int) =~= mapped);
    }
    r
}

} // verus!
