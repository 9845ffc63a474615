//! Compiles resolved permissions into a sandbox profile in the S-expression
//! policy language.
use vstd::prelude::*;
use vstd::string::*;
use crate::codec::{encode, encode_spec, lemma_encode_no_delimiters};
use crate::permissions::{Permission, PermissionView};

verus! {

/// A filesystem path in canonical absolute form, and whether it names a directory.
#[derive(Debug, Clone, PartialEq, Eq)]
pub struct CanonicalPath {
    pub path: Vec<u8>,
    pub is_dir: bool,
}

impl View for CanonicalPath {
    type V = (Seq<u8>, bool);

    open spec fn view(&self) -> (Seq<u8>, bool) {
        (self.path@, self.is_dir)
    }
}

/// A permission whose path, if it has one, has been resolved.
#[derive(Debug, Clone, PartialEq, Eq)]
pub enum Grant {
    NetworkIn,
    NetworkOut,
    Read(CanonicalPath),
    Write(CanonicalPath),
}

pub enum GrantView {
    NetworkIn,
    NetworkOut,
    Read((Seq<u8>, bool)),
    Write((Seq<u8>, bool)),
}

impl View for Grant {
    type V = GrantView;

    open spec fn view(&self) -> GrantView {
        match self {
            Grant::NetworkIn => GrantView::NetworkIn,
            Grant::NetworkOut => GrantView::NetworkOut,
            Grant::Read(p) => GrantView::Read(p@),
            Grant::Write(p) => GrantView::Write(p@),
        }
    }
}

pub open spec fn grants_view(g: Seq<Grant>) -> Seq<GrantView> {
    g.map_values(|x: Grant| x@)
}

/// The fixed part of every profile: deny by default, the trusted base profile,
/// the temporary directories, and the shared-library locations.
pub open spec fn skeleton_text() -> Seq<char> {
    "(version 1)\n"@ + "(deny default)\n\n"@ + "(import \"/System/Library/Sandbox/Profiles/bsd.sb\")\n"@
        + "(allow mach-lookup)\n\n"@ + "(allow file-read* file-write*\n"@
        + "\t(regex #\"^(/private)?/var/folders/[^/]+/[^/]+/C($|/)\")\n"@
        + "\t(regex #\"^(/private)?/var/folders/[^/]+/[^/]+/T($|/)\"))\n\n"@
        + "(allow file-read*\n"@ + "\t(subpath \"/usr/local/lib/\")\n"@
        + "\t(regex #\"^/usr/local/opt/[^/]*/lib/\")\n"@
        + "\t(regex #\"^/usr/local/Cellar/[^/]*/[^/]*/lib/\"))\n\n"@
}

/// A path as a filter: a directory covers its whole subtree, a file only itself.
/// The path is escaped, so it can never close the quoted string.
pub open spec fn path_clause(p: (Seq<u8>, bool)) -> Seq<char> {
    (if p.1 {
        "(subpath \""@
    } else {
        "(literal \""@
    }) + encode_spec(p.0) + "\")"@
}

/// The clause that one grant adds to the profile.
pub open spec fn grant_clause(g: GrantView) -> Seq<char> {
    match g {
        GrantView::NetworkIn => "(allow network-bind network-inbound)\n\n"@,
        GrantView::NetworkOut => "(allow network-outbound)\n\n"@,
        GrantView::Read(p) => "(allow file-read*\n\t"@ + path_clause(p) + ")\n\n"@,
        GrantView::Write(p) => "(allow file-write*\n\t"@ + path_clause(p) + ")\n\n"@,
    }
}

/// The clauses of all grants, in order.
pub open spec fn grants_text(g: Seq<GrantView>) -> Seq<char>
    decreases g.len(),
{
    if g.len() == 0 {
        Seq::empty()
    } else {
        grants_text(g.drop_last()) + grant_clause(g.last())
    }
}

/// The skeleton together with the permission to execute the binary.
pub open spec fn base_profile(binary: (Seq<u8>, bool)) -> Seq<char> {
    skeleton_text() + "(allow process-exec\n\t"@ + path_clause(binary) + ")\n\n"@
}

/// The whole profile for a binary and its grants.
pub open spec fn profile_spec(binary: (Seq<u8>, bool), grants: Seq<GrantView>) -> Seq<char> {
    base_profile(binary) + grants_text(grants)
}

/// The grant for a permission, given the resolved form of its path; `None` when
/// the permission names a path that could not be resolved.
pub open spec fn grant_spec(p: PermissionView, resolved: Option<(Seq<u8>, bool)>) -> Option<
    GrantView,
> {
    match p {
        PermissionView::NetworkIn => Some(GrantView::NetworkIn),
        PermissionView::NetworkOut => Some(GrantView::NetworkOut),
        PermissionView::Read(_) => match resolved {
            Some(c) => Some(GrantView::Read(c)),
            None => None,
        },
        PermissionView::Write(_) => match resolved {
            Some(c) => Some(GrantView::Write(c)),
            None => None,
        },
    }
}

pub open spec fn resolved_view(o: Option<CanonicalPath>) -> Option<(Seq<u8>, bool)> {
    match o {
        Some(c) => Some(c@),
        None => None,
    }
}

/// Pairs a permission with the canonical form of its path. Network permissions
/// name no path and ignore `resolved`.
pub fn grant_for(permission: &Permission, resolved: Option<CanonicalPath>) -> (r: Option<Grant>)
    ensures
        match grant_spec(permission@, resolved_view(resolved)) {
            Some(g) => r matches Some(x) && x@ == g,
            None => r is None,
        },
{
    match permission {
        Permission::AllowNetworkIn => Some(Grant::NetworkIn),
        Permission::AllowNetworkOut => Some(Grant::NetworkOut),
        Permission::AllowRead(_) => match resolved {
            Some(c) => Some(Grant::Read(c)),
            None => None,
        },
        Permission::AllowWrite(_) => match resolved {
            Some(c) => Some(Grant::Write(c)),
            None => None,
        },
    }
}

/// Pairs every permission with the resolved form of its path, `resolved[i]` for
/// `permissions[i]`. `None` when any permission names a path that could not be
/// resolved: no profile is ever built around an unresolved path.
pub fn resolve_grants(permissions: &Vec<Permission>, resolved: Vec<Option<CanonicalPath>>) -> (r:
    Option<Vec<Grant>>)
    requires
        resolved@.len() == permissions@.len(),
    ensures
        match r {
            Some(g) => g@.len() == permissions@.len() && forall|i: int|
                0 <= i < g@.len() ==> grant_spec(permissions@[i]@, resolved_view(resolved@[i]))
                    == Some(#[trigger] g@[i]@),
            None => exists|i: int|
                0 <= i < permissions@.len() && #[trigger] grant_spec(
                    permissions@[i]@,
                    resolved_view(resolved@[i]),
                ) is None,
        },
{
    let ghost original = resolved@;
    let mut slots = resolved;
    let mut grants: Vec<Grant> = Vec::new();
    let mut i: usize = 0;
    while i < permissions.len()
        invariant
            i <= permissions@.len(),
            original == resolved@,
            slots@.len() == permissions@.len() == original.len(),
            forall|j: int| i <= j < original.len() ==> slots@[j] == original[j],
            grants@.len() == i,
            forall|j: int|
                0 <= j < i ==> grant_spec(permissions@[j]@, resolved_view(original[j])) == Some(
                    #[trigger] grants@[j]@,
                ),
        decreases permissions@.len() - i,
    {
        let mut taken: Option<CanonicalPath> = None;
        core::mem::swap(&mut slots[i], &mut taken);
        assert(taken == original[i as int]);
        match grant_for(&permissions[i], taken) {
            Some(g) => grants.push(g),
            None => {
                assert(grant_spec(permissions@[i as int]@, resolved_view(resolved@[i as int])) is None);
                return None;
            },
        }
        i = i + 1;
    }
    Some(grants)
}

/// The filter clause for a resolved path.
pub fn escape_path(path: &CanonicalPath) -> (r: String)
    ensures
        r@ == path_clause(path@),
{
    let mut clause = if path.is_dir {
        String::from_str("(subpath \"")
    } else {
        String::from_str("(literal \"")
    };
    let escaped = encode(path.path.as_slice());
    clause.append(escaped.as_str());
    clause.append("\")");
    clause
}

fn skeleton() -> (r: String)
    ensures
        r@ == skeleton_text(),
{
    let mut s = String::from_str("(version 1)\n");
    s.append("(deny default)\n\n");
    s.append("(import \"/System/Library/Sandbox/Profiles/bsd.sb\")\n");
    s.append("(allow mach-lookup)\n\n");
    s.append("(allow file-read* file-write*\n");
    s.append("\t(regex #\"^(/private)?/var/folders/[^/]+/[^/]+/C($|/)\")\n");
    s.append("\t(regex #\"^(/private)?/var/folders/[^/]+/[^/]+/T($|/)\"))\n\n");
    s.append("(allow file-read*\n");
    s.append("\t(subpath \"/usr/local/lib/\")\n");
    s.append("\t(regex #\"^/usr/local/opt/[^/]*/lib/\")\n");
    s.append("\t(regex #\"^/usr/local/Cellar/[^/]*/[^/]*/lib/\"))\n\n");
    s
}

fn append_grant(profile: &mut String, grant: &Grant)
    ensures
        final(profile)@ == old(profile)@ + grant_clause(grant@),
{
    match grant {
        Grant::NetworkIn => profile.append("(allow network-bind network-inbound)\n\n"),
        Grant::NetworkOut => profile.append("(allow network-outbound)\n\n"),
        Grant::Read(p) => {
            profile.append("(allow file-read*\n\t");
            profile.append(escape_path(p).as_str());
            profile.append(")\n\n");
        },
        Grant::Write(p) => {
            profile.append("(allow file-write*\n\t");
            profile.append(escape_path(p).as_str());
            profile.append(")\n\n");
        },
    }
}

/// The profile that confines `binary` to the fixed skeleton plus one clause per
/// grant, in order.
pub fn build_profile(binary: &CanonicalPath, grants: &Vec<Grant>) -> (r: String)
    ensures
        r@ == profile_spec(binary@, grants_view(grants@)),
{
    let mut profile = skeleton();
    profile.append("(allow process-exec\n\t");
    profile.append(escape_path(binary).as_str());
    profile.append(")\n\n");
    let mut i: usize = 0;
    proof {
        assert(grants_view(grants@).subrange(0, 0) =~= Seq::<GrantView>::empty());
    }
    while i < grants.len()
        invariant
            i <= grants@.len(),
            profile@ == base_profile(binary@) + grants_text(
                grants_view(grants@).subrange(0, i as int),
            ),
        decreases grants@.len() - i,
    {
        append_grant(&mut profile, &grants[i]);
        proof {
            let gv = grants_view(grants@);
            assert(gv.subrange(0, i + 1).drop_last() =~= gv.subrange(0, i as int));
            assert(gv.subrange(0, i + 1).last() == grants@[i as int]@);
        }
        i = i + 1;
    }
    proof {
        assert(grants_view(grants@).subrange(0, i as int) =~= grants_view(grants@));
    }
    profile
}

/// Compiling is a function of the inputs' values alone: equal binaries and equal
/// grant lists give the same profile, character for character.
pub proof fn lemma_profile_deterministic(
    binary1: CanonicalPath,
    grants1: Seq<Grant>,
    binary2: CanonicalPath,
    grants2: Seq<Grant>,
)
    requires
        binary1@ == binary2@,
        grants_view(grants1) == grants_view(grants2),
    ensures
        profile_spec(binary1@, grants_view(grants1)) == profile_spec(
            binary2@,
            grants_view(grants2),
        ),
{
}

/// Grants only add clauses: the clauses of a concatenation are those of each part,
/// one after the other.
pub proof fn lemma_grants_text_concat(g1: Seq<GrantView>, g2: Seq<GrantView>)
    ensures
        grants_text(g1 + g2) == grants_text(g1) + grants_text(g2),
    decreases g2.len(),
{
    if g2.len() == 0 {
        assert(g1 + g2 =~= g1);
        assert(grants_text(g1) + Seq::<char>::empty() =~= grants_text(g1));
    } else {
        let front = g2.drop_last();
        lemma_grants_text_concat(g1, front);
        assert((g1 + g2).drop_last() =~= g1 + front);
        assert((g1 + g2).last() == g2.last());
        assert(grants_text(g1) + (grants_text(front) + grant_clause(g2.last())) =~= (grants_text(
            g1,
        ) + grants_text(front)) + grant_clause(g2.last()));
    }
}

/// Appending grants appends their clauses to the profile and changes nothing
/// before them.
pub proof fn lemma_profile_additive(
    binary: (Seq<u8>, bool),
    g1: Seq<GrantView>,
    g2: Seq<GrantView>,
)
    ensures
        profile_spec(binary, g1 + g2) == profile_spec(binary, g1) + grants_text(g2),
{
    lemma_grants_text_concat(g1, g2);
    assert(base_profile(binary) + (grants_text(g1) + grants_text(g2)) =~= (base_profile(binary)
        + grants_text(g1)) + grants_text(g2));
}

/// Two grants in either order give profiles that share the base and hold the same
/// two clauses, each in input order.
pub proof fn lemma_two_grants_either_order(binary: (Seq<u8>, bool), a: GrantView, b: GrantView)
    ensures
        profile_spec(binary, seq![a, b]) == base_profile(binary) + grant_clause(a) + grant_clause(
            b,
        ),
        profile_spec(binary, seq![b, a]) == base_profile(binary) + grant_clause(b) + grant_clause(
            a,
        ),
{
    lemma_one_grant(binary, a, b);
    lemma_one_grant(binary, b, a);
}

proof fn lemma_one_grant(binary: (Seq<u8>, bool), a: GrantView, b: GrantView)
    ensures
        profile_spec(binary, seq![a, b]) == base_profile(binary) + grant_clause(a) + grant_clause(
            b,
        ),
{
    let g = seq![a, b];
    assert(g.drop_last() =~= seq![a]);
    assert(seq![a].drop_last() =~= Seq::<GrantView>::empty());
    assert(grants_text(Seq::<GrantView>::empty()) == Seq::<char>::empty());
    assert(seq![a].last() == a);
    assert(Seq::<char>::empty() + grant_clause(a) =~= grant_clause(a));
    assert(grants_text(seq![a]) =~= grant_clause(a));
    assert(base_profile(binary) + (grant_clause(a) + grant_clause(b)) =~= base_profile(binary)
        + grant_clause(a) + grant_clause(b));
}

/// A compiled path filter is its opening, the escaped path, and its closing
/// `")`; no quote or parenthesis occurs in between, whatever the path holds.
pub proof fn lemma_path_clause_sealed(p: (Seq<u8>, bool))
    ensures
        path_clause(p) == (if p.1 {
            "(subpath \""@
        } else {
            "(literal \""@
        }) + encode_spec(p.0) + "\")"@,
        forall|i: int|
            0 <= i < encode_spec(p.0).len() ==> {
                let c = #[trigger] encode_spec(p.0)[i];
                c != '"' && c != '(' && c != ')'
            },
{
    lemma_encode_no_delimiters(p.0);
}

} // verus!
