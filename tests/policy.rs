use sandbox_exec::{
    build_profile, escape_path, grant_for, parse_permissions, resolve_grants, CanonicalPath, Grant,
    Permission,
};

fn dir(p: &str) -> CanonicalPath {
    CanonicalPath { path: p.as_bytes().to_vec(), is_dir: true }
}

fn file(p: &str) -> CanonicalPath {
    CanonicalPath { path: p.as_bytes().to_vec(), is_dir: false }
}

const SKELETON: &str = "(version 1)\n(deny default)\n\n(import \"/System/Library/Sandbox/Profiles/bsd.sb\")\n(allow mach-lookup)\n\n(allow file-read* file-write*\n\t(regex #\"^(/private)?/var/folders/[^/]+/[^/]+/C($|/)\")\n\t(regex #\"^(/private)?/var/folders/[^/]+/[^/]+/T($|/)\"))\n\n(allow file-read*\n\t(subpath \"/usr/local/lib/\")\n\t(regex #\"^/usr/local/opt/[^/]*/lib/\")\n\t(regex #\"^/usr/local/Cellar/[^/]*/[^/]*/lib/\"))\n\n";

#[test]
fn escape_path_directory_and_file() {
    assert_eq!(escape_path(&dir("/private/tmp")), "(subpath \"/private/tmp\")");
    assert_eq!(escape_path(&file("/bin/ls")), "(literal \"/bin/ls\")");
}

#[test]
fn escape_path_seals_metacharacters() {
    assert_eq!(
        escape_path(&file("/tmp/a\")(allow default)(\"")),
        "(literal \"/tmp/a\\x22\\x29\\x28allow default\\x29\\x28\\x22\")"
    );
}

#[test]
fn empty_permissions_give_skeleton_only() {
    let perms = parse_permissions("").unwrap();
    assert!(perms.is_empty());
    let profile = build_profile(&file("/bin/ls"), &Vec::new());
    let expected = format!("{}(allow process-exec\n\t(literal \"/bin/ls\"))\n\n", SKELETON);
    assert_eq!(profile, expected);
    assert!(!profile.contains("network"));
}

#[test]
fn network_in_and_read_tmp_profile() {
    let perms = parse_permissions("AllowNetwork:in,AllowRead:/tmp").unwrap();
    let grants: Vec<Grant> = perms
        .iter()
        .map(|p| grant_for(p, Some(dir("/private/tmp"))).unwrap())
        .collect();
    let profile = build_profile(&file("/bin/ls"), &grants);
    let expected = format!(
        "{}(allow process-exec\n\t(literal \"/bin/ls\"))\n\n(allow network-bind network-inbound)\n\n(allow file-read*\n\t(subpath \"/private/tmp\"))\n\n",
        SKELETON
    );
    assert_eq!(profile, expected);
}

#[test]
fn escaped_and_plain_write_compile_alike() {
    let a = parse_permissions("AllowWrite:\\x2f\\x74\\x6d\\x70").unwrap();
    let b = parse_permissions("AllowWrite:/tmp").unwrap();
    assert_eq!(a, b);
    let ga = vec![grant_for(&a[0], Some(dir("/private/tmp"))).unwrap()];
    let gb = vec![grant_for(&b[0], Some(dir("/private/tmp"))).unwrap()];
    let pa = build_profile(&file("/bin/ls"), &ga);
    assert_eq!(pa, build_profile(&file("/bin/ls"), &gb));
    assert!(pa.ends_with("(allow file-write*\n\t(subpath \"/private/tmp\"))\n\n"));
}

#[test]
fn compile_twice_is_identical() {
    let grants = vec![Grant::NetworkOut, Grant::Read(dir("/a b")), Grant::Write(file("/c"))];
    assert_eq!(
        build_profile(&file("/bin/x"), &grants),
        build_profile(&file("/bin/x"), &grants.clone())
    );
}

#[test]
fn grant_order_keeps_both_clauses() {
    let read = Grant::Read(dir("/a"));
    let write = Grant::Write(dir("/b"));
    let bin = file("/bin/x");
    let p1 = build_profile(&bin, &vec![read.clone(), write.clone()]);
    let p2 = build_profile(&bin, &vec![write, read]);
    let read_clause = "(allow file-read*\n\t(subpath \"/a\"))\n\n";
    let write_clause = "(allow file-write*\n\t(subpath \"/b\"))\n\n";
    let base = build_profile(&bin, &Vec::new());
    assert_eq!(p1, format!("{}{}{}", base, read_clause, write_clause));
    assert_eq!(p2, format!("{}{}{}", base, write_clause, read_clause));
}

#[test]
fn grant_for_needs_resolved_path() {
    let read = Permission::AllowRead("/nowhere".to_string());
    assert_eq!(grant_for(&read, None), None);
    assert_eq!(grant_for(&Permission::AllowNetworkOut, None), Some(Grant::NetworkOut));
    assert_eq!(
        grant_for(&Permission::AllowWrite("/w".to_string()), Some(file("/w"))),
        Some(Grant::Write(file("/w")))
    );
}

#[test]
fn resolve_grants_pairs_paths_in_order() {
    let perms = parse_permissions("AllowRead:/a,AllowNetwork:out,AllowWrite:/b").unwrap();
    let resolved = vec![Some(dir("/private/a")), None, Some(file("/private/b"))];
    assert_eq!(
        resolve_grants(&perms, resolved),
        Some(vec![
            Grant::Read(dir("/private/a")),
            Grant::NetworkOut,
            Grant::Write(file("/private/b"))
        ])
    );
}

#[test]
fn resolve_grants_fails_on_unresolved_path() {
    let perms = parse_permissions("AllowNetwork:in,AllowWrite:/missing").unwrap();
    assert_eq!(resolve_grants(&perms, vec![None, None]), None);
    assert_eq!(resolve_grants(&Vec::new(), Vec::new()), Some(Vec::new()));
}
