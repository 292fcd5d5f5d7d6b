//! The transformer run across every configuration: language versions,
//! trigraph translation on and off, warnings on and off, and sources
//! rewritten into their trigraph spelling.

use gcpproc::common::{CVersion, CppVersion, Issue, IssueDesc, IssueType, Location, Params, Version};
use gcpproc::p1to3::{preproc_phases_1_to_3, Output};

fn filename() -> String {
    String::from("filename")
}

fn loc(nline: usize, nchar: usize) -> Location {
    Location::new(filename(), nline, nchar)
}

fn every_version() -> Vec<Version> {
    vec![
        Version::Cpp(CppVersion::Cpp98),
        Version::Cpp(CppVersion::Cpp03),
        Version::Cpp(CppVersion::Cpp11),
        Version::Cpp(CppVersion::Cpp14),
        Version::Cpp(CppVersion::Cpp17),
        Version::Cpp(CppVersion::Cpp20),
        Version::C(CVersion::C89),
        Version::C(CVersion::C99),
        Version::C(CVersion::C11),
        Version::C(CVersion::C18),
    ]
}

fn trigraphify(s: &str) -> String {
    s.replace("{", "??<")
        .replace("}", "??>")
        .replace("[", "??(")
        .replace("]", "??)")
        .replace("#", "??=")
        .replace("\\", "??/")
        .replace("^", "??'")
        .replace("|", "??!")
        .replace("~", "??-")
}

fn do_every<F: Fn(&str, &Params, bool)>(src: &str, mut params: Params, f: F) {
    for trigraphs in &[false, true] {
        for conv in &[false, true] {
            for wtrigraphs in &[true, false] {
                params.wtrigraphs = *wtrigraphs;
                for v in &every_version() {
                    params.version = *v;
                    params.trigraphs = *trigraphs;
                    println!(
                        "Testing for version {:?}, trigraphs {:?}, wtrigraphs {:?}, conv {:?}",
                        v, params.trigraphs, params.wtrigraphs, conv,
                    );
                    let src = if *conv { trigraphify(src) } else { src.to_string() };
                    f(&src, &params, *conv);
                }
            }
        }
    }
}

fn output_will_preserve_trigraphs(params: &Params, conv: bool) -> bool {
    if conv {
        !params.trigraphs || params.version.ver_ge(CVersion::Max, CppVersion::Cpp17)
    } else {
        false
    }
}

#[derive(Debug, PartialEq)]
enum NeedConv {
    Yes,
    No,
    Invalid,
}

#[derive(Debug, PartialEq)]
enum NeedOwpt {
    Yes,
    No,
    Invalid,
}

fn add_tri_issue(
    mut issues: Vec<(NeedConv, NeedOwpt, Issue)>,
    params: &Params,
    conv: bool,
) -> Vec<Issue> {
    if params.trigraphs && params.version.ver_ge(CVersion::Max, CppVersion::Cpp14) {
        issues.insert(
            0,
            (
                NeedConv::No,
                NeedOwpt::No,
                Issue::new(None, IssueType::Warning, IssueDesc::TrigraphAndVersionConflict),
            ),
        );
    }

    let owpt = output_will_preserve_trigraphs(params, conv);
    issues
        .into_iter()
        .filter_map(|(nconv, nowpt, i)| match nowpt {
            NeedOwpt::Yes if !owpt => None,
            NeedOwpt::Invalid if owpt => None,
            _ => match nconv {
                NeedConv::Yes if !conv => None,
                NeedConv::Invalid if conv => None,
                _ => Some(i),
            },
        })
        .filter_map(|mut i| match i.desc {
            IssueDesc::TrigraphPresent(c) => {
                // the warning is raised only where the trigraph is honored
                let tp = if !params.wtrigraphs || !conv || owpt { None } else { Some(i.clone()) };
                let tpi = if (params.version.ver_ls(CVersion::Max, CppVersion::Cpp17)
                    && params.trigraphs)
                    || !conv
                {
                    None
                } else {
                    i.desc = IssueDesc::TrigraphPresentAndIgnored(c);
                    Some(i)
                };
                Some((tp, tpi))
            }
            _ => Some((Some(i), None)),
        })
        .flat_map(|(a, b)| vec![a, b])
        .filter_map(|a| a)
        .collect()
}

fn locations(
    params: &Params,
    conv: bool,
    loc_mapping: Vec<(NeedConv, NeedOwpt, (Location, Location))>,
) -> Vec<(Location, Location)> {
    let owpt = output_will_preserve_trigraphs(params, conv);
    loc_mapping
        .into_iter()
        .filter_map(|(nconv, nowpt, l)| match nowpt {
            NeedOwpt::Yes if !owpt => None,
            NeedOwpt::Invalid if owpt => None,
            _ => match nconv {
                NeedConv::Yes if !conv => None,
                NeedConv::Invalid if conv => None,
                _ => Some(l),
            },
        })
        .collect()
}

#[test]
fn blank() {
    do_every("", Default::default(), |src, params, conv| {
        assert_eq!(
            preproc_phases_1_to_3(src, &filename(), params),
            Output {
                new_file: String::from("\n"),
                issues: add_tri_issue(vec![], params, conv),
                loc_mapping: locations(params, conv, vec![]),
            },
        )
    });
}

#[test]
fn absent_newline() {
    for ending in &["", "\\\n"] {
        println!("Testing for ending {:?}", ending);
        do_every(
            &(String::from("#a\n#a") + ending),
            Default::default(),
            |src, params, conv| {
                let owpt = output_will_preserve_trigraphs(params, conv);
                assert_eq!(
                    preproc_phases_1_to_3(src, &filename(), params),
                    Output {
                        new_file: if owpt {
                            "\n".to_string() + src
                                + if !owpt || *ending == "" { "\n" } else { "" }
                        } else {
                            String::from("\n#a\n#a\n")
                        },
                        issues: add_tri_issue(
                            if params.version.ver_le(CVersion::Max, CppVersion::Cpp03) {
                                Some((
                                    NeedConv::No,
                                    NeedOwpt::No,
                                    Issue::new(
                                        None,
                                        IssueType::Warning,
                                        IssueDesc::FileEndMissingNewline,
                                    ),
                                ))
                            } else {
                                None
                            }
                            .into_iter()
                            .chain(vec![
                                (
                                    NeedConv::No,
                                    NeedOwpt::No,
                                    Issue::new(
                                        Some(loc(1, 1)),
                                        IssueType::Warning,
                                        IssueDesc::TrigraphPresent('='),
                                    ),
                                ),
                                (
                                    NeedConv::No,
                                    NeedOwpt::No,
                                    Issue::new(
                                        Some(loc(2, 1)),
                                        IssueType::Warning,
                                        IssueDesc::TrigraphPresent('='),
                                    ),
                                ),
                            ])
                            .chain(if *ending == "\\\n" {
                                vec![(
                                    NeedConv::No,
                                    NeedOwpt::No,
                                    Issue::new(
                                        Some(loc(2, 5)),
                                        IssueType::Warning,
                                        IssueDesc::TrigraphPresent('/'),
                                    ),
                                )]
                            } else {
                                vec![]
                            })
                            .collect(),
                            params,
                            conv,
                        ),
                        loc_mapping: locations(
                            params,
                            conv,
                            vec![
                                (NeedConv::No, NeedOwpt::No, (loc(1, 1), loc(2, 1))),
                                (NeedConv::Yes, NeedOwpt::Invalid, (loc(1, 4), loc(2, 2))),
                                (NeedConv::Yes, NeedOwpt::Invalid, (loc(2, 4), loc(3, 2))),
                            ],
                        ),
                    },
                )
            },
        );
    }
}

#[test]
fn unifty_non_preproc() {
    do_every("a\nb\nc\nd\n", Default::default(), |src, params, conv| {
        assert_eq!(
            preproc_phases_1_to_3(src, &filename(), params),
            Output {
                new_file: String::from("\na\nb\nc\nd\n"),
                issues: add_tri_issue(vec![], params, conv),
                loc_mapping: locations(
                    params,
                    conv,
                    vec![(NeedConv::No, NeedOwpt::No, (loc(1, 1), loc(2, 1)))],
                ),
            },
        )
    });
}

#[test]
fn unifty_mixed_preproc() {
    do_every(
        "a\n#b\\\nc\\\nd\ne\nf\n#g\\\nh\\\n#i\\\n#j\nk\nl#\nm\nn\n",
        Default::default(),
        |src, params, conv| {
            let owpt = output_will_preserve_trigraphs(params, conv);
            assert_eq!(
                preproc_phases_1_to_3(src, &filename(), params),
                Output {
                    new_file: if owpt {
                        String::from("\n") + src
                    } else {
                        String::from("\na\n#bcd\ne\nf\n#gh#i#j\nk\nl#\nm\nn\n")
                    },
                    issues: add_tri_issue(
                        vec![
                            (
                                NeedConv::No,
                                NeedOwpt::No,
                                Issue::new(
                                    Some(loc(2, 1)),
                                    IssueType::Warning,
                                    IssueDesc::TrigraphPresent('='),
                                ),
                            ),
                            (
                                NeedConv::No,
                                NeedOwpt::No,
                                Issue::new(
                                    Some(loc(2, 5)),
                                    IssueType::Warning,
                                    IssueDesc::TrigraphPresent('/'),
                                ),
                            ),
                            (
                                NeedConv::No,
                                NeedOwpt::No,
                                Issue::new(
                                    Some(loc(3, 2)),
                                    IssueType::Warning,
                                    IssueDesc::TrigraphPresent('/'),
                                ),
                            ),
                            (
                                NeedConv::No,
                                NeedOwpt::No,
                                Issue::new(
                                    Some(loc(7, 1)),
                                    IssueType::Warning,
                                    IssueDesc::TrigraphPresent('='),
                                ),
                            ),
                            (
                                NeedConv::No,
                                NeedOwpt::No,
                                Issue::new(
                                    Some(loc(7, 5)),
                                    IssueType::Warning,
                                    IssueDesc::TrigraphPresent('/'),
                                ),
                            ),
                            (
                                NeedConv::No,
                                NeedOwpt::No,
                                Issue::new(
                                    Some(loc(8, 2)),
                                    IssueType::Warning,
                                    IssueDesc::TrigraphPresent('/'),
                                ),
                            ),
                            (
                                NeedConv::No,
                                NeedOwpt::No,
                                Issue::new(
                                    Some(loc(9, 1)),
                                    IssueType::Warning,
                                    IssueDesc::TrigraphPresent('='),
                                ),
                            ),
                            (
                                NeedConv::No,
                                NeedOwpt::No,
                                Issue::new(
                                    Some(loc(9, 5)),
                                    IssueType::Warning,
                                    IssueDesc::TrigraphPresent('/'),
                                ),
                            ),
                            (
                                NeedConv::No,
                                NeedOwpt::No,
                                Issue::new(
                                    Some(loc(10, 1)),
                                    IssueType::Warning,
                                    IssueDesc::TrigraphPresent('='),
                                ),
                            ),
                            (
                                NeedConv::No,
                                NeedOwpt::No,
                                Issue::new(
                                    Some(loc(12, 2)),
                                    IssueType::Warning,
                                    IssueDesc::TrigraphPresent('='),
                                ),
                            ),
                        ],
                        params,
                        conv,
                    ),
                    loc_mapping: locations(
                        params,
                        conv,
                        vec![
                            (NeedConv::No, NeedOwpt::No, (loc(1, 1), loc(2, 1))),
                            (NeedConv::Yes, NeedOwpt::Invalid, (loc(2, 4), loc(3, 2))),
                            (NeedConv::No, NeedOwpt::Invalid, (loc(3, 1), loc(3, 3))),
                            (NeedConv::No, NeedOwpt::Invalid, (loc(4, 1), loc(3, 4))),
                            (NeedConv::Yes, NeedOwpt::Invalid, (loc(7, 4), loc(6, 2))),
                            (NeedConv::No, NeedOwpt::Invalid, (loc(8, 1), loc(6, 3))),
                            (NeedConv::No, NeedOwpt::Invalid, (loc(9, 1), loc(6, 4))),
                            (NeedConv::Yes, NeedOwpt::Invalid, (loc(9, 4), loc(6, 5))),
                            (NeedConv::No, NeedOwpt::Invalid, (loc(10, 1), loc(6, 6))),
                            (NeedConv::Yes, NeedOwpt::Invalid, (loc(10, 4), loc(6, 7))),
                        ],
                    ),
                },
            )
        },
    );
}

#[test]
fn singleline_merge() {
    let newlines: usize = 8;
    let slashes: usize = 5;
    do_every(
        &(String::from("#a") + &"\\".repeat(slashes) + &"\n".repeat(newlines) + "b\n"),
        Default::default(),
        |src, params, conv| {
            let owpt = output_will_preserve_trigraphs(params, conv);
            assert_eq!(
                preproc_phases_1_to_3(src, &filename(), params),
                Output {
                    new_file: if owpt {
                        trigraphify(&(String::from("\n#a") + &"\\".repeat(slashes) + "\nb\n"))
                    } else {
                        String::from("\n#a") + &"\\".repeat(slashes - 1) + "\nb\n"
                    },
                    issues: add_tri_issue(
                        vec![(
                            NeedConv::No,
                            NeedOwpt::No,
                            Issue::new(
                                Some(loc(1, 1)),
                                IssueType::Warning,
                                IssueDesc::TrigraphPresent('='),
                            ),
                        )]
                        .into_iter()
                        .chain((0..slashes).into_iter().map(|i| {
                            (
                                NeedConv::No,
                                NeedOwpt::No,
                                Issue::new(
                                    Some(loc(1, 5 + i * 3)),
                                    IssueType::Warning,
                                    IssueDesc::TrigraphPresent('/'),
                                ),
                            )
                        }))
                        .collect(),
                        params,
                        conv,
                    ),
                    loc_mapping: locations(
                        params,
                        conv,
                        vec![
                            (NeedConv::No, NeedOwpt::No, (loc(1, 1), loc(2, 1))),
                            (NeedConv::Yes, NeedOwpt::Invalid, (loc(1, 4), loc(2, 2))),
                        ]
                        .into_iter()
                        .chain((0..slashes - 2).into_iter().map(|i| {
                            (
                                NeedConv::Yes,
                                NeedOwpt::Invalid,
                                (loc(1, 8 + i * 3), loc(2, 4 + i)),
                            )
                        }))
                        .chain(vec![
                            (NeedConv::No, NeedOwpt::Invalid, (loc(newlines, 1), loc(3, 1))),
                            (NeedConv::Yes, NeedOwpt::Yes, (loc(newlines + 1, 1), loc(3, 1))),
                        ])
                        .collect(),
                    ),
                },
            )
        },
    );
}

#[test]
fn singleline_merge_nonblank() {
    let newlines: usize = 8;
    let slashes: usize = 5;
    do_every(
        &(String::from("#a") + &"\\".repeat(slashes) + &"\n#b".repeat(newlines) + "\n"),
        Default::default(),
        |src, params, conv| {
            let owpt = output_will_preserve_trigraphs(params, conv);
            assert_eq!(
                preproc_phases_1_to_3(src, &filename(), params),
                Output {
                    new_file: if owpt {
                        trigraphify(&(String::from("\n") + src))
                    } else {
                        String::from("\n#a") + &"\\".repeat(slashes - 1)
                            + &"#b\n".repeat(newlines)
                    },
                    issues: add_tri_issue(
                        vec![(
                            NeedConv::No,
                            NeedOwpt::No,
                            Issue::new(
                                Some(loc(1, 1)),
                                IssueType::Warning,
                                IssueDesc::TrigraphPresent('='),
                            ),
                        )]
                        .into_iter()
                        .chain((0..slashes).into_iter().map(|i| {
                            (
                                NeedConv::No,
                                NeedOwpt::No,
                                Issue::new(
                                    Some(loc(1, 5 + i * 3)),
                                    IssueType::Warning,
                                    IssueDesc::TrigraphPresent('/'),
                                ),
                            )
                        }))
                        .chain((0..newlines).into_iter().map(|i| {
                            (
                                NeedConv::No,
                                NeedOwpt::No,
                                Issue::new(
                                    Some(loc(2 + i, 1)),
                                    IssueType::Warning,
                                    IssueDesc::TrigraphPresent('='),
                                ),
                            )
                        }))
                        .collect(),
                        params,
                        conv,
                    ),
                    loc_mapping: locations(
                        params,
                        conv,
                        vec![
                            (NeedConv::No, NeedOwpt::No, (loc(1, 1), loc(2, 1))),
                            (NeedConv::Yes, NeedOwpt::Invalid, (loc(1, 4), loc(2, 2))),
                        ]
                        .into_iter()
                        .chain((0..slashes - 2).into_iter().map(|i| {
                            (
                                NeedConv::Yes,
                                NeedOwpt::Invalid,
                                (loc(1, 8 + i * 3), loc(2, 4 + i)),
                            )
                        }))
                        .chain(vec![
                            (NeedConv::No, NeedOwpt::Invalid, (loc(2, 1), loc(2, 7))),
                            (NeedConv::Yes, NeedOwpt::Invalid, (loc(2, 4), loc(2, 8))),
                        ])
                        .chain((0..newlines - 1).into_iter().map(|i| {
                            (
                                NeedConv::Yes,
                                NeedOwpt::Invalid,
                                (loc(3 + i, 4), loc(3 + i, 2)),
                            )
                        }))
                        .collect(),
                    ),
                },
            )
        },
    );
}
