//! Typed permission grants and the pipeline from a specification string to them.
use vstd::prelude::*;
use vstd::string::*;
use vstd::utf8::*;
use crate::codec::{
    decode, decode_spec, lemma_prepend_assoc, lemma_prepend_empty, prepend, string_from_utf8,
};
use crate::error::ParseError;
use crate::tokenizer::{parse_key_value, pairs_view, tokenize_spec};

verus! {

/// One grant of capability to the sandboxed child.
#[derive(Debug, Clone, PartialEq, Eq)]
pub enum Permission {
    AllowNetworkIn,
    AllowNetworkOut,
    AllowRead(String),
    AllowWrite(String),
}

/// The mathematical value of a [`Permission`]: paths as character sequences.
pub enum PermissionView {
    NetworkIn,
    NetworkOut,
    Read(Seq<char>),
    Write(Seq<char>),
}

impl View for Permission {
    type V = PermissionView;

    open spec fn view(&self) -> PermissionView {
        match self {
            Permission::AllowNetworkIn => PermissionView::NetworkIn,
            Permission::AllowNetworkOut => PermissionView::NetworkOut,
            Permission::AllowRead(p) => PermissionView::Read(p@),
            Permission::AllowWrite(p) => PermissionView::Write(p@),
        }
    }
}

/// `s` equals `lower` once its ASCII upper-case letters are made lower case.
pub open spec fn eq_ignoring_ascii_case(s: Seq<char>, lower: Seq<char>) -> bool {
    s.len() == lower.len() && forall|i: int|
        0 <= i < s.len() ==> (#[trigger] s[i] == lower[i] || ('A' <= s[i] <= 'Z' && (s[i] as u32)
            + 32 == lower[i] as u32))
}

/// The permission that one decoded (key, value) pair stands for. Keys are
/// case-sensitive; the network direction is not.
pub open spec fn permission_spec(key: Seq<char>, value: Seq<char>) -> Result<
    PermissionView,
    ParseError,
> {
    if key == "AllowNetwork"@ {
        if eq_ignoring_ascii_case(value, "in"@) {
            Ok(PermissionView::NetworkIn)
        } else if eq_ignoring_ascii_case(value, "out"@) {
            Ok(PermissionView::NetworkOut)
        } else {
            Err(ParseError::InvalidPermission)
        }
    } else if key == "AllowRead"@ {
        Ok(PermissionView::Read(value))
    } else if key == "AllowWrite"@ {
        Ok(PermissionView::Write(value))
    } else {
        Err(ParseError::UnknownKey)
    }
}

/// An escaped field decoded to text: the decoded bytes must be UTF-8.
pub open spec fn unescape_spec(t: Seq<u8>) -> Result<Seq<char>, ParseError> {
    match decode_spec(t) {
        Ok(d) => if valid_utf8(d) {
            Ok(decode_utf8(d))
        } else {
            Err(ParseError::InvalidUtf8)
        },
        Err(e) => Err(e),
    }
}

/// Every pair unescaped, key before value, the first failure winning.
pub open spec fn unescape_pairs(p: Seq<(Seq<u8>, Seq<u8>)>) -> Result<
    Seq<(Seq<char>, Seq<char>)>,
    ParseError,
>
    decreases p.len(),
{
    if p.len() == 0 {
        Ok(Seq::empty())
    } else {
        match unescape_spec(p[0].0) {
            Err(e) => Err(e),
            Ok(k) => match unescape_spec(p[0].1) {
                Err(e) => Err(e),
                Ok(v) => prepend(seq![(k, v)], unescape_pairs(p.drop_first())),
            },
        }
    }
}

/// The permissions of decoded pairs, in order, the first failure winning.
pub open spec fn permissions_of(p: Seq<(Seq<char>, Seq<char>)>) -> Result<
    Seq<PermissionView>,
    ParseError,
>
    decreases p.len(),
{
    if p.len() == 0 {
        Ok(Seq::empty())
    } else {
        match permission_spec(p[0].0, p[0].1) {
            Err(e) => Err(e),
            Ok(q) => prepend(seq![q], permissions_of(p.drop_first())),
        }
    }
}

/// The permissions of a whole specification string: split, then unescape every
/// field, then map every pair.
pub open spec fn permissions_spec(text: Seq<u8>) -> Result<Seq<PermissionView>, ParseError> {
    match tokenize_spec(text) {
        Err(e) => Err(e),
        Ok(pairs) => match unescape_pairs(pairs) {
            Err(e) => Err(e),
            Ok(decoded) => permissions_of(decoded),
        },
    }
}

pub open spec fn strings_view(v: Seq<(String, String)>) -> Seq<(Seq<char>, Seq<char>)> {
    v.map_values(|p: (String, String)| (p.0@, p.1@))
}

pub open spec fn permissions_view(v: Seq<Permission>) -> Seq<PermissionView> {
    v.map_values(|p: Permission| p@)
}

fn str_equals(a: &str, b: &str) -> (r: bool)
    ensures
        r == (a@ == b@),
{
    let n = a.unicode_len();
    if n != b.unicode_len() {
        return false;
    }
    let mut i: usize = 0;
    while i < n
        invariant
            n == a@.len() == b@.len(),
            i <= n,
            forall|j: int| 0 <= j < i ==> a@[j] == b@[j],
        decreases n - i,
    {
        if a.get_char(i) != b.get_char(i) {
            return false;
        }
        i = i + 1;
    }
    assert(a@ =~= b@);
    true
}

fn eq_ignore_ascii_case(s: &str, lower: &str) -> (r: bool)
    ensures
        r == eq_ignoring_ascii_case(s@, lower@),
{
    let n = s.unicode_len();
    if n != lower.unicode_len() {
        return false;
    }
    let mut i: usize = 0;
    while i < n
        invariant
            n == s@.len() == lower@.len(),
            i <= n,
            forall|j: int|
                0 <= j < i ==> (#[trigger] s@[j] == lower@[j] || ('A' <= s@[j] <= 'Z' && (
                s@[j] as u32) + 32 == lower@[j] as u32)),
        decreases n - i,
    {
        let c = s.get_char(i);
        let l = lower.get_char(i);
        if !(c == l || ('A' <= c && c <= 'Z' && (c as u32) + 32 == l as u32)) {
            return false;
        }
        i = i + 1;
    }
    true
}

impl Permission {
    /// The permission that a decoded (key, value) pair stands for.
    pub fn from_key_value(pair: (String, String)) -> (r: Result<Permission, ParseError>)
        ensures
            match permission_spec(pair.0@, pair.1@) {
                Ok(p) => r matches Ok(q) && q@ == p,
                Err(e) => r == Err::<Permission, ParseError>(e),
            },
    {
        let (key, value) = pair;
        if str_equals(key.as_str(), "AllowNetwork") {
            if eq_ignore_ascii_case(value.as_str(), "in") {
                Ok(Permission::AllowNetworkIn)
            } else if eq_ignore_ascii_case(value.as_str(), "out") {
                Ok(Permission::AllowNetworkOut)
            } else {
                Err(ParseError::InvalidPermission)
            }
        } else if str_equals(key.as_str(), "AllowRead") {
            Ok(Permission::AllowRead(value))
        } else if str_equals(key.as_str(), "AllowWrite") {
            Ok(Permission::AllowWrite(value))
        } else {
            Err(ParseError::UnknownKey)
        }
    }
}

/// Decodes an escaped field into the text it stands for.
pub fn unescape_str(to_unescape: &[u8]) -> (r: Result<String, ParseError>)
    ensures
        match unescape_spec(to_unescape@) {
            Ok(s) => r matches Ok(t) && t@ == s,
            Err(e) => r == Err::<String, ParseError>(e),
        },
{
    match decode(to_unescape) {
        Ok(bytes) => match string_from_utf8(bytes) {
            Some(s) => Ok(s),
            None => Err(ParseError::InvalidUtf8),
        },
        Err(e) => Err(e),
    }
}

/// Unescapes the key and the value of every pair, in order.
fn unescape_all(pairs: &Vec<(Vec<u8>, Vec<u8>)>) -> (r: Result<Vec<(String, String)>, ParseError>)
    ensures
        match unescape_pairs(pairs_view(pairs@)) {
            Ok(d) => r matches Ok(v) && strings_view(v@) == d,
            Err(e) => r == Err::<Vec<(String, String)>, ParseError>(e),
        },
{
    let ghost pv = pairs_view(pairs@);
    let mut out: Vec<(String, String)> = Vec::new();
    let mut i: usize = 0;
    proof {
        assert(pv.subrange(0, pv.len() as int) =~= pv);
        assert(strings_view(out@) =~= Seq::empty());
        lemma_prepend_empty(unescape_pairs(pv));
    }
    while i < pairs.len()
        invariant
            i <= pairs@.len(),
            pv == pairs_view(pairs@),
            unescape_pairs(pv) == prepend(
                strings_view(out@),
                unescape_pairs(pv.subrange(i as int, pv.len() as int)),
            ),
        decreases pairs@.len() - i,
    {
        let ghost rest = pv.subrange(i as int, pv.len() as int);
        assert(rest[0] == (pairs@[i as int].0@, pairs@[i as int].1@));
        let key = match unescape_str(pairs[i].0.as_slice()) {
            Ok(k) => k,
            Err(e) => {
                return Err(e);
            },
        };
        let value = match unescape_str(pairs[i].1.as_slice()) {
            Ok(v) => v,
            Err(e) => {
                return Err(e);
            },
        };
        let ghost before = strings_view(out@);
        out.push((key, value));
        proof {
            assert(rest.drop_first() =~= pv.subrange(i + 1, pv.len() as int));
            lemma_prepend_assoc(
                before,
                seq![(key@, value@)],
                unescape_pairs(rest.drop_first()),
            );
            assert(strings_view(out@) =~= before + seq![(key@, value@)]);
        }
        i = i + 1;
    }
    proof {
        assert(pv.subrange(i as int, pv.len() as int) =~= Seq::<(Seq<u8>, Seq<u8>)>::empty());
        assert(strings_view(out@) + Seq::<(Seq<char>, Seq<char>)>::empty() =~= strings_view(
            out@,
        ));
    }
    Ok(out)
}

/// Maps every decoded pair to its permission, in order.
fn permissions_from_pairs(decoded: &Vec<(String, String)>) -> (r: Result<Vec<Permission>, ParseError>)
    ensures
        match permissions_of(strings_view(decoded@)) {
            Ok(p) => r matches Ok(v) && permissions_view(v@) == p,
            Err(e) => r == Err::<Vec<Permission>, ParseError>(e),
        },
{
    let ghost dv = strings_view(decoded@);
    let mut out: Vec<Permission> = Vec::new();
    let mut i: usize = 0;
    proof {
        assert(dv.subrange(0, dv.len() as int) =~= dv);
        assert(permissions_view(out@) =~= Seq::empty());
        lemma_prepend_empty(permissions_of(dv));
    }
    while i < decoded.len()
        invariant
            i <= decoded@.len(),
            dv == strings_view(decoded@),
            permissions_of(dv) == prepend(
                permissions_view(out@),
                permissions_of(dv.subrange(i as int, dv.len() as int)),
            ),
        decreases decoded@.len() - i,
    {
        let ghost rest = dv.subrange(i as int, dv.len() as int);
        assert(rest[0] == (decoded@[i as int].0@, decoded@[i as int].1@));
        let key = decoded[i].0.clone();
        let value = decoded[i].1.clone();
        let p = match Permission::from_key_value((key, value)) {
            Ok(p) => p,
            Err(e) => {
                return Err(e);
            },
        };
        let ghost before = permissions_view(out@);
        out.push(p);
        proof {
            assert(rest.drop_first() =~= dv.subrange(i + 1, dv.len() as int));
            lemma_prepend_assoc(before, seq![p@], permissions_of(rest.drop_first()));
            assert(permissions_view(out@) =~= before + seq![p@]);
        }
        i = i + 1;
    }
    proof {
        assert(dv.subrange(i as int, dv.len() as int) =~= Seq::<(Seq<char>, Seq<char>)>::empty());
        assert(permissions_view(out@) + Seq::<PermissionView>::empty() =~= permissions_view(out@));
    }
    Ok(out)
}

/// The permissions granted by a specification string such as
/// `AllowNetwork:in,AllowRead:/tmp`, in input order, duplicates kept.
pub fn parse_permissions(text: &str) -> (r: Result<Vec<Permission>, ParseError>)
    ensures
        match permissions_spec(encode_utf8(text@)) {
            Ok(p) => r matches Ok(v) && permissions_view(v@) == p,
            Err(e) => r == Err::<Vec<Permission>, ParseError>(e),
        },
{
    let pairs = match parse_key_value(text) {
        Ok(p) => p,
        Err(e) => {
            return Err(e);
        },
    };
    let decoded = match unescape_all(&pairs) {
        Ok(d) => d,
        Err(e) => {
            return Err(e);
        },
    };
    permissions_from_pairs(&decoded)
}

} // verus!
