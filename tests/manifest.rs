use cargo_5730::manifest::{synthesized_manifest, SYNTHESIZED_MANIFEST_HEAD};
use cargo_5730::text::replace_all;
use cargo_5730::{qualify_cargo_toml_paths_in_text, read_toml_section};

#[test]
fn test_path_fixup_1() {
    let input = r#"
[dependencies]
lib-crate = { path = "../../lib-crate" }
"#;
    let expected = r#"
[dependencies]
lib-crate = { path = "/basedir/../../lib-crate" }
"#;

    assert_eq!(
        qualify_cargo_toml_paths_in_text(input, "/basedir"),
        expected.to_string()
    );
}

#[test]
fn test_path_fixup_2() {
    let input = r#"
[dependencies]
lib-crate = { path="../../lib-crate" }
"#;
    let expected = r#"
[dependencies]
lib-crate = { path="/basedir/../../lib-crate" }
"#;

    assert_eq!(
        qualify_cargo_toml_paths_in_text(input, "/basedir"),
        expected.to_string()
    );
}

#[test]
fn test_path_fixup_3() {
    let input = r#"
[dependencies]
lib-crate = { path = '../../lib-crate' }
"#;
    let expected = r#"
[dependencies]
lib-crate = { path = '/basedir/../../lib-crate' }
"#;

    assert_eq!(
        qualify_cargo_toml_paths_in_text(input, "/basedir"),
        expected.to_string()
    );
}

#[test]
fn test_path_fixup_4() {
    let input = r#"
[dependencies]
lib-crate = { path='../../lib-crate' }
"#;
    let expected = r#"
[dependencies]
lib-crate = { path='/basedir/../../lib-crate' }
"#;

    assert_eq!(
        qualify_cargo_toml_paths_in_text(input, "/basedir"),
        expected.to_string()
    );
}

#[test]
fn qualify_every_declaration_of_a_section() {
    let input = "a = { path = \"x\" }\nb = { path='y', version = \"1\" }\n";
    let expected = "a = { path = \"/base/x\" }\nb = { path='/base/y', version = \"1\" }\n";
    assert_eq!(qualify_cargo_toml_paths_in_text(input, "/base"), expected);
}

#[test]
fn qualify_leaves_text_without_declarations() {
    let input = "[dependencies]\nserde = \"1\"\n# no paths here\n";
    assert_eq!(qualify_cargo_toml_paths_in_text(input, "/base"), input);
    assert_eq!(qualify_cargo_toml_paths_in_text("", "/base"), "");
}

#[test]
fn qualify_twice_inserts_base_twice() {
    let once = qualify_cargo_toml_paths_in_text("x = { path = \"../x\" }", "/b");
    let twice = qualify_cargo_toml_paths_in_text(&once, "/b");
    assert_eq!(once, "x = { path = \"/b/../x\" }");
    assert_eq!(twice, "x = { path = \"/b//b/../x\" }");
}

#[test]
fn qualify_matches_inside_comments_too() {
    let input = "# path = \"old\"\n";
    assert_eq!(
        qualify_cargo_toml_paths_in_text(input, "/b"),
        "# path = \"/b/old\"\n"
    );
}

#[test]
fn replace_all_is_left_to_right_and_non_overlapping() {
    assert_eq!(replace_all("aaaa", "aa", "b"), "bb");
    assert_eq!(replace_all("aaa", "aa", "b"), "ba");
    assert_eq!(replace_all("xyz", "q", "r"), "xyz");
    assert_eq!(replace_all("héllo wörld", "ö", "oe"), "héllo woerld");
}

#[test]
fn section_absent_is_empty() {
    let manifest = "[package]\nname = \"p\"\n\n[dependencies]\nserde = \"1\"\n";
    assert_eq!(read_toml_section(manifest, "workaround-build-dependencies"), "");
    assert_eq!(read_toml_section("", "dependencies"), "");
}

#[test]
fn section_stops_at_next_header() {
    let manifest = "[package]\nname = \"p\"\n[dependencies]\nserde = \"1\"\n\n[features]\nx = []\n";
    assert_eq!(read_toml_section(manifest, "dependencies"), "serde = \"1\"\n\n");
}

#[test]
fn last_section_runs_to_end_of_file() {
    let manifest = "[package]\nname = \"p\"\n[workaround-build-dependencies]\na = \"1\"\nb = { path = \"../b\" }";
    assert_eq!(
        read_toml_section(manifest, "workaround-build-dependencies"),
        "a = \"1\"\nb = { path = \"../b\" }\n"
    );
}

#[test]
fn section_header_must_match_whole_line() {
    let manifest = "[dependencies.extra]\na = \"1\"\n [dependencies]\nb = \"2\"\n[dependencies]\nc = \"3\"\n";
    assert_eq!(read_toml_section(manifest, "dependencies"), "c = \"3\"\n");
}

#[test]
fn section_lines_lose_carriage_returns() {
    let manifest = "[dependencies]\r\na = \"1\"\r\nb = \"2\"\r\n";
    assert_eq!(read_toml_section(manifest, "dependencies"), "a = \"1\"\nb = \"2\"\n");
}

#[test]
fn synthesized_manifest_with_empty_dependencies() {
    let m = synthesized_manifest("");
    assert_eq!(
        m,
        "\n[package]\nname = \"workaround-build-script\"\nversion = \"0.1.0\"\nauthors = [\"The cargo-5730 crate\"]\nedition = \"2018\"\n\n[dependencies]\n\n"
    );
    assert!(m.ends_with("[dependencies]\n\n"));
}

#[test]
fn synthesized_manifest_holds_dependencies_verbatim() {
    let deps = "lib-crate = { path = \"/basedir/../../lib-crate\" }\n";
    let m = synthesized_manifest(deps);
    assert_eq!(m, format!("{}{}\n", SYNTHESIZED_MANIFEST_HEAD, deps));
}
