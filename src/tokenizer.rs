//! Splits a specification string into key/value pairs on the structural bytes
//! `:` and `,`, before any escape is decoded.
use vstd::prelude::*;
use vstd::utf8::encode_utf8;
use crate::error::ParseError;

verus! {

/// Where the scanner stands after reading a prefix of the input.
pub struct ScanState {
    /// The pairs completed so far, in input order.
    pub pairs: Seq<(Seq<u8>, Seq<u8>)>,
    /// The key being read, or the key of the value being read.
    pub key: Seq<u8>,
    /// The value being read.
    pub value: Seq<u8>,
    /// Whether a `:` has ended the key, so that a value is being read.
    pub in_value: bool,
}

pub open spec fn scan_start() -> ScanState {
    ScanState { pairs: Seq::empty(), key: Seq::empty(), value: Seq::empty(), in_value: false }
}

/// One byte of input. A `:` ends a key and a `,` ends a value; elsewhere both are
/// ordinary bytes.
pub open spec fn scan_step(s: ScanState, c: u8) -> ScanState {
    if !s.in_value {
        if c == (':' as u8) {
            ScanState { pairs: s.pairs, key: s.key, value: Seq::empty(), in_value: true }
        } else {
            ScanState { pairs: s.pairs, key: s.key.push(c), value: s.value, in_value: false }
        }
    } else {
        if c == (',' as u8) {
            ScanState {
                pairs: s.pairs.push((s.key, s.value)),
                key: Seq::empty(),
                value: Seq::empty(),
                in_value: false,
            }
        } else {
            ScanState { pairs: s.pairs, key: s.key, value: s.value.push(c), in_value: true }
        }
    }
}

/// The state after reading all of `t` from the left.
pub open spec fn scan(t: Seq<u8>) -> ScanState
    decreases t.len(),
{
    if t.len() == 0 {
        scan_start()
    } else {
        scan_step(scan(t.drop_last()), t.last())
    }
}

/// The end of input: a value in progress completes its pair, an empty key is
/// nothing, and a key without a value is an incomplete pair.
pub open spec fn scan_finish(s: ScanState) -> Result<Seq<(Seq<u8>, Seq<u8>)>, ParseError> {
    if s.in_value {
        Ok(s.pairs.push((s.key, s.value)))
    } else if s.key.len() == 0 {
        Ok(s.pairs)
    } else {
        Err(ParseError::IncompletePair)
    }
}

/// The pairs of a specification string, still escaped.
pub open spec fn tokenize_spec(t: Seq<u8>) -> Result<Seq<(Seq<u8>, Seq<u8>)>, ParseError> {
    scan_finish(scan(t))
}

/// The byte contents of a sequence of pairs of byte vectors.
pub open spec fn pairs_view(v: Seq<(Vec<u8>, Vec<u8>)>) -> Seq<(Seq<u8>, Seq<u8>)> {
    v.map_values(|p: (Vec<u8>, Vec<u8>)| (p.0@, p.1@))
}

/// Splits a specification string into its (key, value) fields, escapes still
/// encoded, in input order.
pub fn parse_key_value(to_parse: &str) -> (r: Result<Vec<(Vec<u8>, Vec<u8>)>, ParseError>)
    ensures
        match tokenize_spec(encode_utf8(to_parse@)) {
            Ok(p) => r matches Ok(v) && pairs_view(v@) == p,
            Err(e) => r == Err::<Vec<(Vec<u8>, Vec<u8>)>, ParseError>(e),
        },
{
    let bytes = to_parse.as_bytes();
    let mut pairs: Vec<(Vec<u8>, Vec<u8>)> = Vec::new();
    let mut key: Vec<u8> = Vec::new();
    let mut value: Vec<u8> = Vec::new();
    let mut in_value = false;
    let mut i: usize = 0;
    proof {
        assert(pairs_view(pairs@) =~= Seq::empty());
        assert(bytes@.subrange(0, 0) =~= Seq::<u8>::empty());
    }
    while i < bytes.len()
        invariant
            i <= bytes@.len(),
            bytes@ == encode_utf8(to_parse@),
            scan(bytes@.subrange(0, i as int)) == (ScanState {
                pairs: pairs_view(pairs@),
                key: key@,
                value: value@,
                in_value,
            }),
        decreases bytes@.len() - i,
    {
        let c = bytes[i];
        let ghost before = scan(bytes@.subrange(0, i as int));
        proof {
            let next = bytes@.subrange(0, i + 1);
            assert(next.drop_last() =~= bytes@.subrange(0, i as int));
            assert(next.last() == c);
        }
        if !in_value {
            if c == (':' as u8) {
                value = Vec::new();
                in_value = true;
                assert(value@ =~= Seq::<u8>::empty());
            } else {
                key.push(c);
            }
        } else {
            if c == (',' as u8) {
                let ghost old_pairs = pairs@;
                pairs.push((key, value));
                key = Vec::new();
                value = Vec::new();
                in_value = false;
                proof {
                    assert(pairs_view(pairs@) =~= pairs_view(old_pairs).push(
                        (before.key, before.value),
                    ));
                    assert(key@ =~= Seq::<u8>::empty());
                    assert(value@ =~= Seq::<u8>::empty());
                }
            } else {
                value.push(c);
            }
        }
        i = i + 1;
    }
    proof {
        assert(bytes@.subrange(0, i as int) =~= bytes@);
    }
    if in_value {
        let ghost old_pairs = pairs@;
        pairs.push((key, value));
        proof {
            assert(pairs_view(pairs@) =~= pairs_view(old_pairs).push((key@, value@)));
        }
        Ok(pairs)
    } else if key.len() == 0 {
        Ok(pairs)
    } else {
        Err(ParseError::IncompletePair)
    }
}

proof fn lemma_key_state_extends(t: Seq<u8>, k: Seq<u8>)
    requires
        !scan(t).in_value,
        forall|i: int| 0 <= i < k.len() ==> k[i] != (':' as u8),
    ensures
        !scan(t + k).in_value,
        scan(t + k).key == scan(t).key + k,
    decreases k.len(),
{
    if k.len() == 0 {
        assert(t + k =~= t);
        assert(scan(t).key + k =~= scan(t).key);
    } else {
        let front = k.drop_last();
        lemma_key_state_extends(t, front);
        assert((t + k).drop_last() =~= t + front);
        assert((t + k).last() == k.last());
        assert(scan(t).key + front.push(k.last()) =~= scan(t).key + k);
        assert(front.push(k.last()) =~= k);
        assert(scan(t).key + k =~= (scan(t).key + front).push(k.last()));
    }
}

/// A trailing key that no `:` ends, at the start of the input or after a `,`,
/// always makes the input an incomplete pair, whatever came before.
pub proof fn lemma_trailing_key_incomplete(t: Seq<u8>, k: Seq<u8>)
    requires
        t.len() == 0 || t.last() == (',' as u8),
        k.len() > 0,
        forall|i: int| 0 <= i < k.len() ==> k[i] != (':' as u8),
    ensures
        tokenize_spec(t + k) == Err::<Seq<(Seq<u8>, Seq<u8>)>, ParseError>(
            ParseError::IncompletePair,
        ),
{
    lemma_key_state_extends(t, k);
}

} // verus!
