use copy_modules_closure::deps::{
    bytes_equal, dependency_tokens, holds_name, mod_deps, mod_resolved_deps, mod_soft_deps,
    parse_soft_deps, resolve_tokens, soft_dep_is_name, union_names,
};
use copy_modules_closure::fields::{output_lines_of, split_fields, Separator};

fn b(s: &str) -> Vec<u8> {
    s.as_bytes().to_vec()
}

fn bs(v: &[&str]) -> Vec<Vec<u8>> {
    v.iter().map(|s| b(s)).collect()
}

#[test]
fn soft_dep_markers_are_dropped() {
    assert_eq!(parse_soft_deps(b"pre: foo post: bar baz"), bs(&["foo", "bar", "baz"]));
}

#[test]
fn soft_dep_line_with_tabs_and_runs_of_space() {
    assert_eq!(parse_soft_deps(b"  pre:\tfoo\n\n post:  "), bs(&["foo"]));
    assert_eq!(parse_soft_deps(b""), Vec::<Vec<u8>>::new());
    assert_eq!(parse_soft_deps(b"prefix: post:x"), bs(&["prefix:", "post:x"]));
}

#[test]
fn soft_dep_name_test() {
    assert!(soft_dep_is_name(b"foo"));
    assert!(!soft_dep_is_name(b"pre:"));
    assert!(!soft_dep_is_name(b"post:"));
    assert!(!soft_dep_is_name(b""));
}

#[test]
fn split_keeps_empty_pieces() {
    assert_eq!(split_fields(b"a,,b,", Separator::Comma), bs(&["a", "", "b", ""]));
    assert_eq!(split_fields(b"", Separator::Comma), bs(&[""]));
    assert_eq!(split_fields(b"a b\tc", Separator::Whitespace), bs(&["a", "b", "c"]));
}

#[test]
fn output_lines_drop_empty_lines() {
    assert_eq!(output_lines_of(b"foo\n\nbar\n"), bs(&["foo", "bar"]));
    assert_eq!(output_lines_of(b"\n\n"), Vec::<Vec<u8>>::new());
    assert_eq!(output_lines_of(b"one"), bs(&["one"]));
}

#[test]
fn hard_deps_split_at_commas() {
    assert_eq!(mod_deps(&bs(&["a,b", "c"])), bs(&["a", "b", "c"]));
    assert_eq!(mod_deps(&bs(&["a,,b"])), bs(&["a", "", "b"]));
    assert_eq!(mod_deps(&Vec::new()), Vec::<Vec<u8>>::new());
}

#[test]
fn soft_deps_of_several_lines() {
    assert_eq!(mod_soft_deps(&bs(&["pre: a", "post: b c"])), bs(&["a", "b", "c"]));
}

#[test]
fn dependency_tokens_join_both_kinds() {
    let d = Some(bs(&["x,y"]));
    let s = Some(bs(&["pre: z"]));
    assert_eq!(dependency_tokens(&d, &s), bs(&["x", "y", "z"]));
    assert_eq!(dependency_tokens(&None, &s), bs(&["z"]));
    assert_eq!(dependency_tokens(&d, &None), bs(&["x", "y"]));
    assert_eq!(dependency_tokens(&None, &None), Vec::<Vec<u8>>::new());
}

#[test]
fn union_drops_repeats_and_missing_answers() {
    let answers = vec![Some(bs(&["a", "b"])), None, Some(bs(&["b", "c"])), Some(vec![])];
    assert_eq!(union_names(&answers), bs(&["a", "b", "c"]));
    assert_eq!(union_names(&vec![None, None]), Vec::<Vec<u8>>::new());
}

#[test]
fn failed_root_contributes_nothing() {
    let roots = bs(&["good", "missing"]);
    let (names, _) = resolve_tokens(&roots, |t: &Vec<u8>| {
        if t.as_slice() == b"good" {
            Some(bs(&["good_mod"]))
        } else {
            None
        }
    });
    assert_eq!(names, bs(&["good_mod"]));
}

#[test]
fn glob_token_resolves_to_several_names() {
    let (names, _) = resolve_tokens(&bs(&["snd*"]), |_t: &Vec<u8>| Some(bs(&["snd", "snd_pcm"])));
    assert_eq!(names, bs(&["snd", "snd_pcm"]));
}

#[test]
fn resolved_deps_union_of_resolutions() {
    let d = Some(bs(&["a,b"]));
    let s = Some(bs(&["pre: a post: c"]));
    let (names, _) = mod_resolved_deps(&d, &s, |t: &Vec<u8>| match t.as_slice() {
        b"a" => Some(bs(&["mod_a"])),
        b"b" => None,
        b"c" => Some(bs(&["mod_c", "mod_a"])),
        _ => Some(vec![]),
    });
    assert_eq!(names, bs(&["mod_a", "mod_c"]));
}

#[test]
fn byte_helpers() {
    assert!(bytes_equal(b"abc", b"abc"));
    assert!(!bytes_equal(b"abc", b"abd"));
    assert!(!bytes_equal(b"ab", b"abc"));
    let names = bs(&["x", "y"]);
    assert!(holds_name(&names, b"y"));
    assert!(!holds_name(&names, b"z"));
}
