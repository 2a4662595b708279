use ldtstore_codegen::data::{Boot, Resource};
use ldtstore_codegen::output::{
    commit_short, dest_name, file_header, integrity_of, page_html, parse_head_ref, replace_body,
    DomainReg, FileType,
};
use ldtstore_codegen::subst::{insert_key, substitute};
use ldtstore_codegen::Config;
use sha2::Digest;

fn pairs(ps: &[(&str, &str)]) -> Vec<(String, String)> {
    let mut v = Vec::new();
    for (a, b) in ps {
        v.push(((*a).to_owned(), (*b).to_owned()));
    }
    v
}

#[test]
fn substitution_replaces_every_occurrence() {
    let p = pairs(&[("[X]", "one"), ("[Y]", "two")]);
    assert_eq!(substitute(&p, "a[X]b[Y]c[X]"), "aonebtwocone");
}

#[test]
fn substitution_leaves_plain_text_alone() {
    let p = pairs(&[("[X]", "one")]);
    assert_eq!(substitute(&p, "no tokens here"), "no tokens here");
}

#[test]
fn replacements_are_not_rescanned() {
    let p = pairs(&[("[X]", "[Y]"), ("[Y]", "ZZ")]);
    assert_eq!(substitute(&p, "[X]"), "[Y]");
    assert_eq!(substitute(&p, "[X][Y]"), "[Y]ZZ");
}

#[test]
fn earlier_pattern_wins_at_one_position() {
    let p = pairs(&[("ab", "1"), ("abc", "2")]);
    assert_eq!(substitute(&p, "abc"), "1c");
}

#[test]
fn insert_key_brackets_the_name() {
    assert_eq!(insert_key("codegen-home-major"), "<!--{{codegen-home-major}}-->");
}

#[test]
fn global_tokens_rewritten() {
    let p = pairs(&[("<a n ", "<a target=\"_blank\" "), ("{{ASSERT}}", "..")]);
    assert_eq!(
        substitute(&p, "<a n href=\"x\">{{ASSERT}}/image/a.webp"),
        "<a target=\"_blank\" href=\"x\">../image/a.webp"
    );
}

#[test]
fn config_profiles() {
    assert_eq!(Config::Prod.name(), "Prod");
    assert_eq!(Config::Dev.name(), "Dev");
    assert_eq!(Config::Prod.asset_base(), "//s0.ldt.pc.wiki");
    assert_eq!(Config::Dev.asset_base(), "..");
}

#[test]
fn file_types_parsed_from_suffix() {
    assert!(matches!(FileType::parse("a.html"), Some(FileType::Html)));
    assert!(matches!(FileType::parse("a.css"), Some(FileType::Css)));
    assert!(matches!(FileType::parse("a.ts"), Some(FileType::Script)));
    assert!(FileType::parse("a.webp").is_none());
}

#[test]
fn dest_names_carry_revision_and_suffix() {
    assert_eq!(dest_name("style.css", FileType::Css, "abc1234"), "style-abc1234.css");
    assert_eq!(dest_name("main.ts", FileType::Script, "abc1234"), "main-abc1234.js");
}

#[test]
fn head_reference_parsed() {
    assert_eq!(
        parse_head_ref("ref: refs/heads/master\n").as_deref(),
        Some("refs/heads/master")
    );
    assert!(parse_head_ref("0123456789abcdef\n").is_none());
    assert_eq!(commit_short("0123456789abcdef").as_deref(), Some("0123456"));
    assert!(commit_short("012").is_none());
}

#[test]
fn integrity_matches_direct_digest() {
    let content = "some asset body";
    let digest = sha2::Sha512::digest(content.as_bytes());
    let mut expected = "sha512-".to_owned();
    data_encoding::BASE64.encode_append(&digest, &mut expected);
    assert_eq!(integrity_of(content), expected);
}

#[test]
fn header_names_profile_and_revisions() {
    let h = file_header(FileType::Css, "ccccccc", "ggggggg", Config::Dev);
    assert!(h.starts_with("/*"));
    assert!(h.ends_with("*/"));
    assert!(h.contains("Commit (content): ccccccc"));
    assert!(h.contains("Commit (codegen): ggggggg"));
    assert!(h.contains("Dev build"));
}

#[test]
fn registration_footnote_spliced() {
    let body = "<footer><!--{{icpreg-static}}--></footer>";
    let with = replace_body(DomainReg::PcWiki, body);
    assert!(with.contains("beian.miit.gov.cn"));
    assert!(with.contains("鲁ICP备2023022036号"));
    let without = replace_body(DomainReg::NoReg, body);
    assert_eq!(without, "<footer></footer>");
}

#[test]
fn page_carries_every_section() {
    let boot = Boot {
        lang: Some("zh-cn".to_owned()),
        css: vec![
            Resource {
                path: "/code/a-abc.css".to_owned(),
                integrity: Some("sha512-xyz".to_owned()),
            },
        ],
        js: vec![Resource { path: "/code/a-abc.js".to_owned(), integrity: None }],
        minified_css: vec!["body{}".to_owned()],
        minified_js: vec!["let x=1".to_owned()],
        includes: vec![("__DATA__".to_owned(), "{\"page_type\":\"home\"}".to_owned())],
        head: "<title>t</title>".to_owned(),
        body: "<main></main><!--{{icpreg-static}}-->".to_owned(),
    };
    let page = page_html(&boot, DomainReg::LdtstoreComCn, "ccccccc", "ggggggg", Config::Prod);
    assert!(page.starts_with("<!--"));
    assert!(page.contains("<!DOCTYPE html>"));
    assert!(page.contains("<html lang=\"zh-cn\">"));
    assert!(page.contains("<title>t</title>"));
    assert!(page.contains("<style>body{}</style>"));
    assert!(page.contains(
        "<link rel=\"stylesheet\" href=\"/code/a-abc.css\" integrity=\"sha512-xyz\" crossorigin=\"anonymous\">"
    ));
    assert!(page.contains("<script>window.__DATA__={\"page_type\":\"home\"}</script>"));
    assert!(page.contains("<script>let x=1</script>"));
    assert!(page.contains(
        "<script src=\"/code/a-abc.js\" crossorigin=\"anonymous\"></script>"
    ));
    assert!(page.contains("鲁ICP备2021014114号"));
    assert!(page.ends_with("</body>\n</html>"));
}
