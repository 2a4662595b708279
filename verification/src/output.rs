use vstd::prelude::*;

use crate::data::{Boot, Resource};
use crate::subst::{pairs_views, spec_substitute, substitute};
use crate::text::{cat3, push_char};
use vstd::string::StringSliceAdditionalSpecFns;
use crate::Config;
use sha2::Digest;

verus! {

/// The kind of a source or output file, told apart by suffix.
#[derive(Clone, Copy, PartialEq, Eq, Structural, Debug)]
pub enum FileType {
    Html,
    Css,
    Script,
}

pub open spec fn spec_src_ext(t: FileType) -> Seq<char> {
    match t {
        FileType::Html => "html"@,
        FileType::Css => "css"@,
        FileType::Script => "ts"@,
    }
}

pub open spec fn spec_dest_ext(t: FileType) -> Seq<char> {
    match t {
        FileType::Html => "html"@,
        FileType::Css => "css"@,
        FileType::Script => "js"@,
    }
}

pub open spec fn spec_comment_l(t: FileType) -> Seq<char> {
    match t {
        FileType::Html => "<!--"@,
        _ => "/*"@,
    }
}

pub open spec fn spec_comment_r(t: FileType) -> Seq<char> {
    match t {
        FileType::Html => "-->"@,
        _ => "*/"@,
    }
}

pub open spec fn spec_ends_with(s: Seq<char>, t: Seq<char>) -> bool {
    s.len() >= t.len() && s.skip(s.len() - t.len()) == t
}

/// Whether `s` ends with `t`.
pub fn str_ends_with(s: &str, t: &str) -> (r: bool)
    ensures
        r == spec_ends_with(s@, t@),
{
    let n = s.unicode_len();
    let m = t.unicode_len();
    if m > n {
        proof {
            assert(!spec_ends_with(s@, t@));
        }
        return false;
    }
    let mut j: usize = 0;
    while j < m
        invariant
            j <= m,
            m <= n,
            n == s@.len(),
            m == t@.len(),
            forall|h: int| 0 <= h < j ==> s@[n - m + h] == t@[h],
        decreases m - j,
    {
        if s.get_char(n - m + j) != t.get_char(j) {
            proof {
                assert(s@.skip(n - m as int)[j as int] != t@[j as int]);
            }
            return false;
        }
        j += 1;
    }
    proof {
        assert(s@.skip(n - m as int) =~= t@);
    }
    true
}

impl FileType {
    /// The suffix a source file of this kind carries.
    pub fn as_src(&self) -> (r: &'static str)
        ensures
            r@ == spec_src_ext(*self),
    {
        match self {
            FileType::Html => "html",
            FileType::Css => "css",
            FileType::Script => "ts",
        }
    }

    /// The suffix an output file of this kind carries.
    pub fn as_dest(&self) -> (r: &'static str)
        ensures
            r@ == spec_dest_ext(*self),
    {
        match self {
            FileType::Html => "html",
            FileType::Css => "css",
            FileType::Script => "js",
        }
    }

    /// The comment delimiters of this kind of file.
    pub fn comment(&self) -> (r: (&'static str, &'static str))
        ensures
            r.0@ == spec_comment_l(*self),
            r.1@ == spec_comment_r(*self),
    {
        match self {
            FileType::Html => ("<!--", "-->"),
            _ => ("/*", "*/"),
        }
    }

    /// Tells a file's kind from its name, trying the markup, style and script
    /// suffixes in that order.
    pub fn parse(name: &str) -> (r: Option<FileType>)
        ensures
            match r {
                Some(t) => t == spec_parse_file_type(name@)->0,
                None => spec_parse_file_type(name@) is None,
            },
    {
        if str_ends_with(name, "html") {
            Some(FileType::Html)
        } else if str_ends_with(name, "css") {
            Some(FileType::Css)
        } else if str_ends_with(name, "ts") {
            Some(FileType::Script)
        } else {
            None
        }
    }
}

pub open spec fn spec_parse_file_type(name: Seq<char>) -> Option<FileType> {
    if spec_ends_with(name, "html"@) {
        Some(FileType::Html)
    } else if spec_ends_with(name, "css"@) {
        Some(FileType::Css)
    } else if spec_ends_with(name, "ts"@) {
        Some(FileType::Script)
    } else {
        None
    }
}

/// A file name with its kind's suffix and the dot before it cut off.
pub fn firstname(file_name: &str, ty: FileType) -> (r: String)
    requires
        file_name@.len() > spec_src_ext(ty).len(),
    ensures
        r@ == file_name@.take(file_name@.len() - spec_src_ext(ty).len() - 1),
{
    let n = file_name.unicode_len();
    let m = ty.as_src().unicode_len();
    file_name.substring_char(0, n - m - 1).to_owned()
}

/// The output name of a compiled asset: its base name, the content revision,
/// and the output suffix.
pub fn dest_name(file_name: &str, ty: FileType, commit: &str) -> (r: String)
    requires
        file_name@.len() > spec_src_ext(ty).len(),
    ensures
        r@ == file_name@.take(file_name@.len() - spec_src_ext(ty).len() - 1) + "-"@ + commit@
            + "."@ + spec_dest_ext(ty),
{
    let base = firstname(file_name, ty);
    let mut r = base;
    r.append("-");
    r.append(commit);
    r.append(".");
    r.append(ty.as_dest());
    r
}

/// What SHA-512 returns for a given byte sequence.
pub uninterp spec fn sha512_of(data: Seq<u8>) -> Seq<u8>;

/// Relies on sha2::Sha512 through the Digest trait: the 64-byte digest of the
/// input alone.
#[verifier::external_body]
fn sha512(data: &[u8]) -> (r: Vec<u8>)
    ensures
        r@ == sha512_of(data@),
        r@.len() == 64,
{
    let mut hasher = sha2::Sha512::new();
    hasher.update(data);
    hasher.finalize().to_vec()
}

/// What the padded base-64 alphabet encodes a byte sequence to.
pub uninterp spec fn base64_of(data: Seq<u8>) -> Seq<char>;

/// Relies on data_encoding::BASE64.encode_append: appends the encoding of the
/// input to the string.
#[verifier::external_body]
fn base64_append(data: &[u8], out: &mut String)
    ensures
        final(out)@ == old(out)@ + base64_of(data@),
{
    data_encoding::BASE64.encode_append(data, out)
}

/// The subresource-integrity value of a byte sequence: the digest name, a
/// dash, and the encoded digest.
pub open spec fn spec_integrity(data: Seq<u8>) -> Seq<char> {
    "sha512-"@ + base64_of(sha512_of(data))
}

/// Computes the subresource-integrity value of a text's bytes.
pub fn integrity_of(content: &str) -> (r: String)
    ensures
        r@ == spec_integrity(content.spec_bytes()),
{
    let digest = sha512(content.as_bytes());
    let mut r = "sha512-".to_owned();
    base64_append(digest.as_slice(), &mut r);
    r
}

pub open spec fn spec_copyright_l() -> Seq<char> {
    "\n  Copyright (c) 2021-2023 CarrotGeball and stackinspector. All rights reserved. MIT license.\n  Source: https://github.com/stackinspector/ldtstore-homepage\n  Commit (content): "@
}

pub open spec fn spec_copyright_r(codegen_rev: Seq<char>) -> Seq<char> {
    "\n  Commit (codegen): "@ + codegen_rev + "\n"@
}

/// The provenance header every emitted file starts with: the comment
/// delimiters around the copyright notice, both revisions, and the build
/// profile.
pub open spec fn spec_file_header(
    ty: FileType,
    commit: Seq<char>,
    codegen_rev: Seq<char>,
    config: Config,
) -> Seq<char> {
    spec_comment_l(ty) + spec_copyright_l() + commit + spec_copyright_r(codegen_rev) + "  "@
        + spec_config_name(config) + " build\n"@ + spec_comment_r(ty)
}

pub open spec fn spec_config_name(c: Config) -> Seq<char> {
    match c {
        Config::Prod => "Prod"@,
        Config::Dev => "Dev"@,
    }
}

pub open spec fn spec_config_assert(c: Config) -> Seq<char> {
    match c {
        Config::Prod => "//s0.ldt.pc.wiki"@,
        Config::Dev => ".."@,
    }
}

/// Builds the provenance header of one emitted file.
pub fn file_header(ty: FileType, commit: &str, codegen_rev: &str, config: Config) -> (r: String)
    ensures
        r@ == spec_file_header(ty, commit@, codegen_rev@, config),
{
    let (cl, cr) = ty.comment();
    let mut r = cl.to_owned();
    r.append(
        "\n  Copyright (c) 2021-2023 CarrotGeball and stackinspector. All rights reserved. MIT license.\n  Source: https://github.com/stackinspector/ldtstore-homepage\n  Commit (content): ",
    );
    r.append(commit);
    r.append("\n  Commit (codegen): ");
    r.append(codegen_rev);
    r.append("\n");
    r.append("  ");
    r.append(config.name());
    r.append(" build\n");
    r.append(cr);
    r
}

/// One compiled asset, ready to write out: the header, a blank line, the
/// substituted content.
pub fn code_artifact(
    ty: FileType,
    content: &str,
    commit: &str,
    codegen_rev: &str,
    config: Config,
) -> (r: String)
    ensures
        r@ == spec_file_header(ty, commit@, codegen_rev@, config) + "\n\n"@ + content@,
{
    let mut r = file_header(ty, commit, codegen_rev, config);
    r.append("\n\n");
    r.append(content);
    r
}

/// The first line of a checked-out head file: the text before the first line
/// break.
pub open spec fn spec_first_line(s: Seq<char>) -> Seq<char>
    decreases s.len(),
{
    if s.len() == 0 {
        Seq::empty()
    } else if s[0] == '\n' {
        Seq::empty()
    } else {
        seq![s[0]] + spec_first_line(s.drop_first())
    }
}

/// The reference path of a symbolic head line: what follows the first
/// `ref: ` marker, to the end of the line; nothing when no marker occurs.
pub open spec fn spec_head_ref(line: Seq<char>) -> Option<Seq<char>>
    decreases line.len(),
{
    if line.len() < 5 {
        None
    } else if line.subrange(0, 5) == "ref: "@ {
        Some(line.skip(5))
    } else {
        spec_head_ref(line.drop_first())
    }
}

/// Takes the first line of `s`.
pub fn first_line(s: &str) -> (r: String)
    ensures
        r@ == spec_first_line(s@),
{
    let n = s.unicode_len();
    let mut r = String::new();
    let mut i: usize = 0;
    while i < n
        invariant
            i <= n,
            n == s@.len(),
            forall|h: int| 0 <= h < i ==> s@[h] != '\n',
            r@ =~= s@.take(i as int),
        decreases n - i,
    {
        let c = s.get_char(i);
        if c == '\n' {
            proof {
                lemma_first_line_stops(s@, i as int);
            }
            return r;
        }
        push_char(&mut r, c);
        proof {
            assert(s@.take(i + 1 as int) =~= s@.take(i as int).push(s@[i as int]));
        }
        i += 1;
    }
    proof {
        assert(s@.take(n as int) =~= s@);
        lemma_first_line_whole(s@);
    }
    r
}

/// A prefix free of line breaks, cut at a break or at the end, is the first
/// line.
proof fn lemma_first_line_stops(s: Seq<char>, i: int)
    requires
        0 <= i < s.len(),
        s[i] == '\n',
        forall|h: int| 0 <= h < i ==> s[h] != '\n',
    ensures
        spec_first_line(s) == s.take(i),
    decreases i,
{
    if i == 0 {
        assert(s.take(0) =~= Seq::<char>::empty());
    } else {
        lemma_first_line_stops(s.drop_first(), i - 1);
        assert(s.drop_first().take(i - 1) =~= s.take(i).drop_first());
        assert(spec_first_line(s) =~= s.take(i));
    }
}

proof fn lemma_first_line_whole(s: Seq<char>)
    requires
        forall|h: int| 0 <= h < s.len() ==> s[h] != '\n',
    ensures
        spec_first_line(s) == s,
    decreases s.len(),
{
    if s.len() > 0 {
        lemma_first_line_whole(s.drop_first());
        assert(spec_first_line(s) =~= s);
    }
}

/// Reads the reference path out of a checked-out head file: the text after
/// the `ref: ` marker on the first line.
pub fn parse_head_ref(head: &str) -> (r: Option<String>)
    ensures
        match r {
            Some(p) => spec_head_ref(spec_first_line(head@)) == Some(p@),
            None => spec_head_ref(spec_first_line(head@)) is None,
        },
{
    proof {
        reveal_strlit("ref: ");
    }
    let line = first_line(head);
    let n = line.unicode_len();
    if n < 5 {
        proof {
            lemma_head_ref_short(line@);
        }
        return None;
    }
    let mut i: usize = 0;
    proof {
        assert(line@.skip(0) =~= line@);
    }
    while i <= n - 5
        invariant
            i <= n - 4,
            n >= 5,
            n == line@.len(),
            line@ == spec_first_line(head@),
            spec_head_ref(line@) == spec_head_ref(line@.skip(i as int)),
        decreases n - i,
    {
        proof {
            reveal_strlit("ref: ");
        }
        let marker = "ref: ";
        let mut hit = true;
        let mut j: usize = 0;
        while j < 5
            invariant
                j <= 5,
                i + 5 <= n,
                n == line@.len(),
                marker@ == "ref: "@,
                marker@.len() == 5,
                hit == (forall|h: int| 0 <= h < j ==> line@[i + h] == marker@[h]),
            decreases 5 - j,
        {
            proof {
                reveal_strlit("ref: ");
            }
            if line.get_char(i + j) != marker.get_char(j) {
                hit = false;
                proof {
                    assert(line@[i + j as int] != marker@[j as int]);
                }
            }
            j += 1;
        }
        proof {
            let suf = line@.skip(i as int);
            if hit {
                assert(suf.subrange(0, 5) =~= "ref: "@);
            } else {
                let h = choose|h: int| 0 <= h < 5 && line@[i + h] != marker@[h];
                assert(suf.subrange(0, 5)[h] == line@[i + h]);
                assert(suf.subrange(0, 5) != "ref: "@);
            }
        }
        if hit {
            let rest = line.substring_char(i + 5, n).to_owned();
            proof {
                assert(line@.skip(i as int).skip(5) =~= line@.subrange(i + 5 as int, n as int));
            }
            return Some(rest);
        }
        proof {
            assert(line@.skip(i as int).drop_first() =~= line@.skip(i + 1 as int));
        }
        i += 1;
    }
    proof {
        lemma_head_ref_short(line@.skip(i as int));
    }
    None
}

proof fn lemma_head_ref_short(s: Seq<char>)
    requires
        s.len() < 5,
    ensures
        spec_head_ref(s) is None,
    decreases s.len(),
{
    if s.len() > 0 {
        lemma_head_ref_short(s.drop_first());
    }
}

/// The first characters of a revision file, as the short content revision.
pub fn commit_short(s: &str) -> (r: Option<String>)
    ensures
        match r {
            Some(p) => s@.len() >= 7 && p@ == s@.take(7),
            None => s@.len() < 7,
        },
{
    let n = s.unicode_len();
    if n < 7 {
        None
    } else {
        Some(s.substring_char(0, 7).to_owned())
    }
}

/// The domain registration footnote of one destination, if its domain has
/// one.
#[derive(Clone, Copy, PartialEq, Eq, Structural, Debug)]
pub enum DomainReg {
    NoReg,
    PcWiki,
    LdtstoreComCn,
}

pub open spec fn spec_icpreg(reg: DomainReg) -> Option<Seq<char>> {
    match reg {
        DomainReg::NoReg => None,
        DomainReg::PcWiki => Some("鲁ICP备2023022036号"@),
        DomainReg::LdtstoreComCn => Some("鲁ICP备2021014114号"@),
    }
}

impl DomainReg {
    pub fn icpreg(&self) -> (r: Option<&'static str>)
        ensures
            match r {
                Some(s) => spec_icpreg(*self) == Some(s@),
                None => spec_icpreg(*self) is None,
            },
    {
        match self {
            DomainReg::NoReg => None,
            DomainReg::PcWiki => Some("鲁ICP备2023022036号"),
            DomainReg::LdtstoreComCn => Some("鲁ICP备2021014114号"),
        }
    }
}

/// The anchor spliced in for the registration token, or nothing.
pub open spec fn spec_icpreg_html(reg: DomainReg) -> Seq<char> {
    match spec_icpreg(reg) {
        Some(num) => "<a target=\"_blank\" class=\"link hidden\" href=\"//beian.miit.gov.cn/\"><span>"@
            + num + "</span></a>\n"@,
        None => Seq::empty(),
    }
}

pub open spec fn spec_replace_body(reg: DomainReg, body: Seq<char>) -> Seq<char> {
    spec_substitute(seq![("<!--{{icpreg-static}}-->"@, spec_icpreg_html(reg))], body, 0)
}

/// Splices the domain registration footnote into a page body.
pub fn replace_body(reg: DomainReg, body: &str) -> (r: String)
    ensures
        r@ == spec_replace_body(reg, body@),
{
    let html = match reg.icpreg() {
        Some(num) => cat3(
            "<a target=\"_blank\" class=\"link hidden\" href=\"//beian.miit.gov.cn/\"><span>",
            num,
            "</span></a>\n",
        ),
        None => String::new(),
    };
    proof {
        assert(html@ == spec_icpreg_html(reg));
    }
    let pairs: Vec<(String, String)> = vec![("<!--{{icpreg-static}}-->".to_owned(), html)];
    let r = substitute(&pairs, body);
    proof {
        assert(pairs_views(pairs@) =~= seq![("<!--{{icpreg-static}}-->"@, spec_icpreg_html(reg))]);
    }
    r
}


/// The inline style blocks of one page, in order.
pub open spec fn spec_style_blocks(cs: Seq<String>) -> Seq<char>
    decreases cs.len(),
{
    if cs.len() == 0 {
        Seq::empty()
    } else {
        spec_style_blocks(cs.drop_last()) + "<style>"@ + cs.last()@ + "</style>\n"@
    }
}

/// The linked style sheets of one page, hashed names and integrity values.
pub open spec fn spec_css_links(rs: Seq<Resource>) -> Seq<char>
    decreases rs.len(),
{
    if rs.len() == 0 {
        Seq::empty()
    } else {
        spec_css_links(rs.drop_last()) + "<link rel=\"stylesheet\" href=\""@ + rs.last().path@
            + (match rs.last().integrity {
            Some(sri) => "\" integrity=\""@ + sri@,
            None => Seq::empty(),
        }) + "\" crossorigin=\"anonymous\">\n"@
    }
}

/// The embedded data payloads of one page, each bound to a window key.
pub open spec fn spec_include_blocks(is: Seq<(String, String)>) -> Seq<char>
    decreases is.len(),
{
    if is.len() == 0 {
        Seq::empty()
    } else {
        spec_include_blocks(is.drop_last()) + "<script>window."@ + is.last().0@ + "="@
            + is.last().1@ + "</script>\n"@
    }
}

/// The inline script blocks of one page, in order.
pub open spec fn spec_script_blocks(js: Seq<String>) -> Seq<char>
    decreases js.len(),
{
    if js.len() == 0 {
        Seq::empty()
    } else {
        spec_script_blocks(js.drop_last()) + "<script>"@ + js.last()@ + "</script>\n"@
    }
}

/// The linked scripts of one page, hashed names and integrity values.
pub open spec fn spec_js_links(rs: Seq<Resource>) -> Seq<char>
    decreases rs.len(),
{
    if rs.len() == 0 {
        Seq::empty()
    } else {
        spec_js_links(rs.drop_last()) + "<script src=\""@ + rs.last().path@
            + (match rs.last().integrity {
            Some(sri) => "\" integrity=\""@ + sri@,
            None => Seq::empty(),
        }) + "\" crossorigin=\"anonymous\"></script>\n"@
    }
}

pub open spec fn spec_html_open(lang: Option<String>) -> Seq<char> {
    match lang {
        Some(l) => "<html lang=\""@ + l@ + "\">\n"@,
        None => "<html>\n"@,
    }
}

/// One final page, from header to closing tag: the provenance header, the
/// document head with styles and sheets, then the body with the registration
/// footnote spliced in, the data payloads, and the scripts.
pub open spec fn spec_page_html(
    boot: Boot,
    reg: DomainReg,
    commit: Seq<char>,
    codegen_rev: Seq<char>,
    config: Config,
) -> Seq<char> {
    spec_file_header(FileType::Html, commit, codegen_rev, config) + "\n\n<!DOCTYPE html>\n"@
        + spec_html_open(boot.lang) + "<head>\n"@ + boot.head@ + spec_style_blocks(
        boot.minified_css@,
    ) + spec_css_links(boot.css@) + "</head>\n<body>\n"@ + spec_replace_body(reg, boot.body@)
        + spec_include_blocks(boot.includes@) + spec_script_blocks(boot.minified_js@)
        + spec_js_links(boot.js@) + "</body>\n</html>"@
}

fn append_styles(out: &mut String, cs: &Vec<String>)
    ensures
        final(out)@ == old(out)@ + spec_style_blocks(cs@),
{
    let mut i: usize = 0;
    proof {
        assert(out@ =~= old(out)@ + spec_style_blocks(cs@.take(0)));
    }
    while i < cs.len()
        invariant
            i <= cs@.len(),
            out@ == old(out)@ + spec_style_blocks(cs@.take(i as int)),
        decreases cs@.len() - i,
    {
        out.append("<style>");
        out.append(cs[i].as_str());
        out.append("</style>\n");
        proof {
            assert(cs@.take(i + 1 as int).drop_last() =~= cs@.take(i as int));
            assert(cs@.take(i + 1 as int).last() == cs@[i as int]);
        }
        i += 1;
    }
    proof {
        assert(cs@.take(cs@.len() as int) =~= cs@);
    }
}

fn append_css_links(out: &mut String, rs: &Vec<Resource>)
    ensures
        final(out)@ == old(out)@ + spec_css_links(rs@),
{
    let mut i: usize = 0;
    proof {
        assert(out@ =~= old(out)@ + spec_css_links(rs@.take(0)));
    }
    while i < rs.len()
        invariant
            i <= rs@.len(),
            out@ == old(out)@ + spec_css_links(rs@.take(i as int)),
        decreases rs@.len() - i,
    {
        out.append("<link rel=\"stylesheet\" href=\"");
        out.append(rs[i].path.as_str());
        match &rs[i].integrity {
            Some(sri) => {
                out.append("\" integrity=\"");
                out.append(sri.as_str());
            },
            None => (),
        }
        out.append("\" crossorigin=\"anonymous\">\n");
        proof {
            assert(rs@.take(i + 1 as int).drop_last() =~= rs@.take(i as int));
            assert(rs@.take(i + 1 as int).last() == rs@[i as int]);
        }
        i += 1;
    }
    proof {
        assert(rs@.take(rs@.len() as int) =~= rs@);
    }
}

fn append_includes(out: &mut String, is_: &Vec<(String, String)>)
    ensures
        final(out)@ == old(out)@ + spec_include_blocks(is_@),
{
    let mut i: usize = 0;
    proof {
        assert(out@ =~= old(out)@ + spec_include_blocks(is_@.take(0)));
    }
    while i < is_.len()
        invariant
            i <= is_@.len(),
            out@ == old(out)@ + spec_include_blocks(is_@.take(i as int)),
        decreases is_@.len() - i,
    {
        out.append("<script>window.");
        out.append(is_[i].0.as_str());
        out.append("=");
        out.append(is_[i].1.as_str());
        out.append("</script>\n");
        proof {
            assert(is_@.take(i + 1 as int).drop_last() =~= is_@.take(i as int));
            assert(is_@.take(i + 1 as int).last() == is_@[i as int]);
        }
        i += 1;
    }
    proof {
        assert(is_@.take(is_@.len() as int) =~= is_@);
    }
}

fn append_scripts(out: &mut String, js: &Vec<String>)
    ensures
        final(out)@ == old(out)@ + spec_script_blocks(js@),
{
    let mut i: usize = 0;
    proof {
        assert(out@ =~= old(out)@ + spec_script_blocks(js@.take(0)));
    }
    while i < js.len()
        invariant
            i <= js@.len(),
            out@ == old(out)@ + spec_script_blocks(js@.take(i as int)),
        decreases js@.len() - i,
    {
        out.append("<script>");
        out.append(js[i].as_str());
        out.append("</script>\n");
        proof {
            assert(js@.take(i + 1 as int).drop_last() =~= js@.take(i as int));
            assert(js@.take(i + 1 as int).last() == js@[i as int]);
        }
        i += 1;
    }
    proof {
        assert(js@.take(js@.len() as int) =~= js@);
    }
}

fn append_js_links(out: &mut String, rs: &Vec<Resource>)
    ensures
        final(out)@ == old(out)@ + spec_js_links(rs@),
{
    let mut i: usize = 0;
    proof {
        assert(out@ =~= old(out)@ + spec_js_links(rs@.take(0)));
    }
    while i < rs.len()
        invariant
            i <= rs@.len(),
            out@ == old(out)@ + spec_js_links(rs@.take(i as int)),
        decreases rs@.len() - i,
    {
        out.append("<script src=\"");
        out.append(rs[i].path.as_str());
        match &rs[i].integrity {
            Some(sri) => {
                out.append("\" integrity=\"");
                out.append(sri.as_str());
            },
            None => (),
        }
        out.append("\" crossorigin=\"anonymous\"></script>\n");
        proof {
            assert(rs@.take(i + 1 as int).drop_last() =~= rs@.take(i as int));
            assert(rs@.take(i + 1 as int).last() == rs@[i as int]);
        }
        i += 1;
    }
    proof {
        assert(rs@.take(rs@.len() as int) =~= rs@);
    }
}

/// Writes one page out as text.
#[verifier::rlimit(60)]
pub fn page_html(
    boot: &Boot,
    reg: DomainReg,
    commit: &str,
    codegen_rev: &str,
    config: Config,
) -> (r: String)
    ensures
        r@ == spec_page_html(*boot, reg, commit@, codegen_rev@, config),
{
    let mut out = file_header(FileType::Html, commit, codegen_rev, config);
    out.append("\n\n<!DOCTYPE html>\n");
    match &boot.lang {
        Some(l) => {
            out.append("<html lang=\"");
            out.append(l.as_str());
            out.append("\">\n");
        },
        None => {
            out.append("<html>\n");
        },
    }
    out.append("<head>\n");
    out.append(boot.head.as_str());
    append_styles(&mut out, &boot.minified_css);
    append_css_links(&mut out, &boot.css);
    out.append("</head>\n<body>\n");
    let body = replace_body(reg, boot.body.as_str());
    out.append(body.as_str());
    append_includes(&mut out, &boot.includes);
    append_scripts(&mut out, &boot.minified_js);
    append_js_links(&mut out, &boot.js);
    out.append("</body>\n</html>");
    proof {
        assert(out@ =~= spec_page_html(*boot, reg, commit@, codegen_rev@, config));
    }
    out
}

/// The environment token table of one build profile: the anchor shorthand,
/// and the asset-host token.
pub open spec fn spec_global_pairs(config: Config) -> Seq<(Seq<char>, Seq<char>)> {
    seq![
        ("<a n "@, "<a target=\"_blank\" "@),
        ("{{ASSERT}}"@, spec_config_assert(config)),
    ]
}

/// Builds the environment token table the global pass substitutes with.
pub fn global_pairs(config: Config) -> (r: Vec<(String, String)>)
    ensures
        pairs_views(r@) == spec_global_pairs(config),
{
    let r: Vec<(String, String)> = vec![
        ("<a n ".to_owned(), "<a target=\"_blank\" ".to_owned()),
        ("{{ASSERT}}".to_owned(), config.asset_base().to_owned()),
    ];
    proof {
        assert(pairs_views(r@) =~= spec_global_pairs(config));
    }
    r
}

} // verus!
