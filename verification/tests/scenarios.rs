//! Single-configuration runs: the concrete behaviors of trigraphs,
//! splices, comments, literals and the end-of-file policy.

use gcpproc::common::{CVersion, CppVersion, Issue, IssueDesc, IssueType, Location, Params, Version};
use gcpproc::p1to3::{preproc_phases_1_to_3, Output};

fn loc(nline: usize, nchar: usize) -> Location {
    Location::new(String::from("f"), nline, nchar)
}

fn run(src: &str, params: &Params) -> Output {
    preproc_phases_1_to_3(src, "f", params)
}

fn c11() -> Params {
    Params::default()
}

fn cpp(v: CppVersion, trigraphs: bool, wtrigraphs: bool) -> Params {
    Params { version: Version::Cpp(v), trigraphs, wtrigraphs }
}

#[test]
fn empty_input() {
    let out = run("", &c11());
    assert_eq!(out.new_file, "\n");
    assert_eq!(out.issues, vec![]);
    assert_eq!(out.loc_mapping, vec![]);
}

#[test]
fn splice_across_blank_lines() {
    let out = run("#a\\\\\\\\\\\n\n\n\n\n\n\n\nb\n", &c11());
    assert_eq!(out.new_file, "\n#a\\\\\\\\\nb\n");
    assert_eq!(out.issues, vec![]);
    assert_eq!(out.loc_mapping, vec![(loc(1, 1), loc(2, 1)), (loc(8, 1), loc(3, 1))]);
}

#[test]
fn line_comment_across_splice() {
    let out = run("#a // b \\\n#c\n#d\n", &c11());
    assert_eq!(out.new_file, "\n#a\n#d\n");
    assert_eq!(out.issues, vec![]);
}

#[test]
fn block_comment_across_newline() {
    let out = run("a /* b\nc */ d\n", &c11());
    assert_eq!(out.new_file, "\na d\n");
    assert_eq!(out.issues, vec![]);
}

#[test]
fn trigraph_honored() {
    let out = run("??=a\n", &cpp(CppVersion::Cpp03, true, true));
    assert_eq!(out.new_file, "\n#a\n");
    assert_eq!(
        out.issues,
        vec![Issue::new(Some(loc(1, 1)), IssueType::Warning, IssueDesc::TrigraphPresent('='))],
    );
}

#[test]
fn trigraph_ignored_in_modern_cpp() {
    let out = run("??=a\n", &cpp(CppVersion::Cpp17, true, false));
    assert_eq!(out.new_file, "\n??=a\n");
    assert_eq!(
        out.issues,
        vec![
            Issue::new(None, IssueType::Warning, IssueDesc::TrigraphAndVersionConflict),
            Issue::new(
                Some(loc(1, 1)),
                IssueType::Warning,
                IssueDesc::TrigraphPresentAndIgnored('='),
            ),
        ],
    );
}

#[test]
fn unterminated_block_comment() {
    let out = run("a /* bbb", &c11());
    assert!(!out.new_file.contains("bbb"));
    assert_eq!(
        out.issues,
        vec![
            Issue::new(None, IssueType::Warning, IssueDesc::FileEndMissingNewline),
            Issue::new(
                Some(loc(1, 3)),
                IssueType::Error,
                IssueDesc::MultilineCommentNotClosed,
            ),
        ],
    );
    assert_eq!(out.new_file, "\na\n");
}

#[test]
fn every_trigraph_translates() {
    let pairs: Vec<(char, char)> = vec![
        ('<', '{'),
        ('>', '}'),
        ('(', '['),
        (')', ']'),
        ('=', '#'),
        ('\'', '^'),
        ('!', '|'),
        ('-', '~'),
    ];
    for (third, rep) in pairs {
        let src = format!("??{}\n", third);
        let out = run(&src, &cpp(CppVersion::Cpp03, true, false));
        assert_eq!(out.new_file, format!("\n{}\n", rep));
        assert_eq!(out.issues, vec![]);
    }
}

#[test]
fn trigraph_backslash_splices() {
    // `??/` becomes a backslash, which then joins the two lines
    let out = run("??/\na\n", &cpp(CppVersion::Cpp03, true, false));
    assert_eq!(out.new_file, "\na\n");
    assert_eq!(out.issues, vec![]);
}

#[test]
fn quoted_text_kept_verbatim() {
    // inside a literal, whitespace is not collapsed and comments are inert
    let out = run("\"a  b\"\n", &c11());
    assert_eq!(out.new_file, "\n\"a  b\"\n");
    assert_eq!(out.issues, vec![]);
    let out = run("\"a // b\"\n", &c11());
    assert_eq!(out.new_file, "\n\"a // b\"\n");
    assert_eq!(out.issues, vec![]);
}

#[test]
fn trigraph_inert_inside_literal_and_comment() {
    let p = cpp(CppVersion::Cpp03, true, true);
    let out = run("\"??=\"\n", &p);
    assert_eq!(out.new_file, "\n\"??=\"\n");
    assert_eq!(out.issues, vec![]);
    let out = run("a /* ??= */\n", &p);
    assert!(!out.new_file.contains('#'));
    assert_eq!(out.issues, vec![]);
}

#[test]
fn newline_closes_quote_with_warning() {
    let out = run("\"ab\ncd\n", &c11());
    assert_eq!(out.new_file, "\n\"ab\ncd\n");
    assert_eq!(
        out.issues,
        vec![Issue::new(
            Some(loc(1, 1)),
            IssueType::Warning,
            IssueDesc::QuotationMarkNotClosed('"'),
        )],
    );
}

#[test]
fn quote_open_at_end_of_input() {
    // the trailing backslashes soak up the virtual newlines, so the quote
    // is still open when the input ends
    let out = run("\"ab\\\\", &c11());
    assert_eq!(
        out.issues,
        vec![
            Issue::new(None, IssueType::Warning, IssueDesc::FileEndMissingNewline),
            Issue::new(
                Some(loc(1, 1)),
                IssueType::Error,
                IssueDesc::QuotationMarkNotClosed('"'),
            ),
        ],
    );
}

#[test]
fn line_comments_need_c99() {
    let c89 = Params { version: Version::C(CVersion::C89), ..Params::default() };
    let out = run("a//b\n", &c89);
    assert_eq!(out.new_file, "\na//b\n");
    let c99 = Params { version: Version::C(CVersion::C99), ..Params::default() };
    let out = run("a//b\n", &c99);
    assert_eq!(out.new_file, "\na\n");
}

#[test]
fn two_block_comments() {
    let out = run("a/*x*/b/*y*/c\n", &c11());
    assert_eq!(out.new_file, "\na b c\n");
    assert_eq!(out.issues, vec![]);
}

#[test]
fn plain_text_is_kept() {
    let out = run("ab\ncd\n", &c11());
    assert_eq!(out.new_file, "\nab\ncd\n");
    assert_eq!(out.issues, vec![]);
}

#[test]
fn whitespace_normalization() {
    // a tab becomes a space
    assert_eq!(run("a\tb\n", &c11()).new_file, "\na b\n");
    // leading whitespace is dropped
    assert_eq!(run("  a\n", &c11()).new_file, "\na\n");
    // a trailing space is removed before the newline
    assert_eq!(run("a \n", &c11()).new_file, "\na\n");
    // runs of whitespace collapse to one space
    assert_eq!(run("a \t b\n", &c11()).new_file, "\na b\n");
}

#[test]
fn second_run_is_fixed_point() {
    let p = cpp(CppVersion::Cpp17, false, false);
    for src in &["ab\ncd\n", "#a\nb c\n", "a/*x*/b\n", "x \\\ny\n"] {
        let first = run(src, &p);
        let second = run(&first.new_file, &p);
        assert_eq!(second.new_file, first.new_file);
        assert_eq!(second.issues, vec![]);
    }
}

#[test]
fn prefix_identity_for_plain_sources() {
    for src in &["ab\ncd\n", "#define x y\n", "int main() { return 0; }\n"] {
        let out = run(src, &cpp(CppVersion::Cpp17, false, false));
        assert_eq!(out.new_file, format!("\n{}", src));
    }
}

#[test]
fn output_framed_by_newlines() {
    for src in &["", "a", "a\n", "#x", "a /*", "\"q", "x\\\\", "  ", "??="] {
        let out = run(src, &c11());
        let first = out.new_file.chars().next();
        let last = out.new_file.chars().last();
        assert_eq!(first, Some('\n'));
        assert_eq!(last, Some('\n'));
    }
}

#[test]
fn map_output_positions_increase() {
    for src in &["a\nb\nc\nd\n", "#a\\\\\\\\\\\n\n\nb\n", "x /* c */ y\nz\n"] {
        let out = run(src, &c11());
        for w in out.loc_mapping.windows(2) {
            let a = &w[0].1;
            let b = &w[1].1;
            assert!(a.nline < b.nline || (a.nline == b.nline && a.nchar < b.nchar));
        }
    }
}

#[test]
fn version_order() {
    let v = Version::Cpp(CppVersion::Cpp14);
    assert!(v.ver_ge(CVersion::Max, CppVersion::Cpp14));
    assert!(!v.ver_gr(CVersion::Max, CppVersion::Cpp14));
    assert!(v.ver_le(CVersion::Min, CppVersion::Cpp17));
    assert!(v.ver_ls(CVersion::Min, CppVersion::Cpp17));
    let c = Version::C(CVersion::C11);
    assert!(c.ver_ge(CVersion::C99, CppVersion::Max));
    assert!(!c.ver_ge(CVersion::C18, CppVersion::Min));
    assert!(c.ver_le(CVersion::Max, CppVersion::Cpp03));
}

#[test]
fn default_params() {
    let p = Params::default();
    assert_eq!(p.version, Version::C(CVersion::C11));
    assert!(!p.trigraphs);
    assert!(!p.wtrigraphs);
}

#[test]
fn location_and_issue_construction() {
    let l = Location::new(String::from("x.c"), 3, 7);
    assert_eq!(l.filename, "x.c");
    assert_eq!(l.nline, 3);
    assert_eq!(l.nchar, 7);
    let i = Issue::new(Some(l.clone()), IssueType::Info, IssueDesc::FileEndMissingNewline);
    assert_eq!(i.loc, Some(l));
    assert_eq!(i.itype, IssueType::Info);
    assert_eq!(i.desc, IssueDesc::FileEndMissingNewline);
}
