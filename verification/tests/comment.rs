use candy_frontend::comment::{
    assignment_comment_parts, blocks, code_block, comment_lines, comment_rcsts, try_comment_rcsts,
    leading_comment_parts, escaped, leading_indentation, list, newline, ordered_list_item_marker,
    paragraph, recombine, single_line_whitespace, title, title_line, unordered_list_item_marker,
    url_line, urls, whitespace_indentation_score, whitespaces_and_newlines, InlineFormatting,
    Rcst, RcstError, RcstListItemMarker,
};
use candy_frontend::cst::{Cst, CstData, CstKind, Id};
use candy_frontend::position::Offset;

fn lines(lines: &[&str]) -> Vec<String> {
    lines.iter().map(|it| it.to_string()).collect()
}

#[test]
fn test_single_line_whitespace() {
    assert_eq!(
        single_line_whitespace(lines(&["  ", "foo"])),
        Some((lines(&["", "foo"]), Rcst::Whitespace("  ".to_string())))
    );
}

#[test]
fn test_leading_indentation() {
    assert_eq!(
        leading_indentation(lines(&["  foo"]), 2),
        Some((lines(&["foo"]), Rcst::Whitespace("  ".to_string())))
    );
    assert_eq!(leading_indentation(lines(&["  foo"]), 4), None);
}

#[test]
fn test_escaped() {
    assert_eq!(escaped(Some('_')), Rcst::EscapedChar(Some('_')));
    assert_eq!(
        escaped(Some('a')),
        Rcst::Error {
            child: Some(Rcst::EscapedChar(Some('a')).into()),
            error: RcstError::EscapeWithInvalidChar,
        }
    );
    assert_eq!(
        escaped(None),
        Rcst::Error {
            child: None,
            error: RcstError::EscapeMissesChar,
        }
    );
}

#[test]
fn weird_whitespace_is_marked() {
    assert_eq!(
        single_line_whitespace(lines(&[" \tx"])),
        Some((
            lines(&["x"]),
            Rcst::Error {
                child: Some(Box::new(Rcst::Whitespace(" \t".to_string()))),
                error: RcstError::WeirdWhitespace,
            }
        ))
    );
    assert_eq!(single_line_whitespace(lines(&["x"])), None);
    assert_eq!(single_line_whitespace(vec![]), None);
    assert_eq!(
        leading_indentation(lines(&["\tfoo"]), 2),
        Some((
            lines(&["foo"]),
            Rcst::Error {
                child: Some(Box::new(Rcst::Whitespace("\t".to_string()))),
                error: RcstError::WeirdWhitespaceInIndentation,
            }
        ))
    );
    assert_eq!(leading_indentation(lines(&[" foo"]), 2), None);
    assert_eq!(
        leading_indentation(lines(&["   foo", "bar"]), 2),
        Some((lines(&[" foo", "bar"]), Rcst::Whitespace("  ".to_string())))
    );
}

#[test]
fn newlines_need_a_following_line() {
    assert_eq!(newline(lines(&["", "a"])), Some((lines(&["a"]), Rcst::Newline)));
    assert_eq!(newline(lines(&[""])), None);
    assert_eq!(newline(lines(&["x", "a"])), None);
}

#[test]
fn recombining_lines() {
    assert_eq!(recombine("a".to_string(), lines(&["b", "c"])), lines(&["a", "b", "c"]));
}

#[test]
fn indentation_scores() {
    assert_eq!(whitespace_indentation_score("  "), 2);
    assert_eq!(whitespace_indentation_score("\t "), 3);
    assert_eq!(whitespace_indentation_score(""), 0);
}

#[test]
fn rcst_text_keeps_the_source() {
    let item = Rcst::ListItem {
        marker: RcstListItemMarker::Ordered {
            number: Box::new(Rcst::TextPart("1".to_string())),
            has_trailing_space: true,
        },
        content: vec![
            Rcst::Emphasized {
                has_opening_underscore: true,
                text: vec![Rcst::TextPart("a".to_string())],
                has_closing_underscore: false,
            },
            Rcst::EscapedChar(Some('#')),
            Rcst::Newline,
        ],
    };
    assert_eq!(item.to_string(), "1. _a\\#\n");
    let title = Rcst::TitleLine {
        octothorpe_count: 2,
        text: vec![Rcst::TextPart(" Foo".to_string())],
    };
    assert_eq!(title.to_string(), "## Foo");
    let code = Rcst::CodeBlock {
        code: vec![Rcst::TextPart("x".to_string())],
        has_closing_backticks: true,
    };
    assert_eq!(code.to_string(), "```x```");
    let error = Rcst::Error { child: None, error: RcstError::UrlInvalid };
    assert_eq!(error.to_string(), "");
}

#[test]
fn test_whitespaces_and_newlines() {
    assert_eq!(
        whitespaces_and_newlines(lines(&[" ", " a"]), 0),
        Some((
            lines(&["a"]),
            vec![
                Rcst::Whitespace(" ".to_string()),
                Rcst::Newline,
                Rcst::Whitespace(" ".to_string())
            ],
        )),
    );
    assert_eq!(whitespaces_and_newlines(lines(&["", " a"]), 2), None);
    assert_eq!(
        whitespaces_and_newlines(lines(&[" ", "  a"]), 2),
        Some((
            lines(&["a"]),
            vec![
                Rcst::Whitespace(" ".to_string()),
                Rcst::Newline,
                Rcst::Whitespace("  ".to_string())
            ],
        )),
    );
    assert_eq!(
        whitespaces_and_newlines(lines(&[" ", "   a"]), 2),
        Some((
            lines(&["a"]),
            vec![
                Rcst::Whitespace(" ".to_string()),
                Rcst::Newline,
                Rcst::Whitespace("  ".to_string()),
                Rcst::Whitespace(" ".to_string()),
            ],
        )),
    );
    assert_eq!(whitespaces_and_newlines(lines(&["abc"]), 2), None);
    assert_eq!(
        whitespaces_and_newlines(lines(&["", ""]), 0),
        Some((lines(&[""]), vec![Rcst::Newline]))
    );
}

#[test]
fn test_inline() {
    assert_eq!(
        candy_frontend::comment::inline_parser::inline("abc", &[]),
        Some((vec![Rcst::TextPart("abc".to_string())], vec![])),
    );
    assert_eq!(
        candy_frontend::comment::inline_parser::inline("abc _def_ ghi", &[]),
        Some((
            vec![
                Rcst::TextPart("abc ".to_string()),
                Rcst::Emphasized {
                    has_opening_underscore: true,
                    text: vec![Rcst::TextPart("def".to_string())],
                    has_closing_underscore: true,
                },
                Rcst::TextPart(" ghi".to_string()),
            ],
            vec![],
        )),
    );
    assert_eq!(
        candy_frontend::comment::inline_parser::inline("abc [def] ghi", &[]),
        Some((
            vec![
                Rcst::TextPart("abc ".to_string()),
                Rcst::Link {
                    has_opening_bracket: true,
                    text: vec![Rcst::TextPart("def".to_string())],
                    has_closing_bracket: true,
                },
                Rcst::TextPart(" ghi".to_string()),
            ],
            vec![],
        )),
    );
    assert_eq!(
        candy_frontend::comment::inline_parser::inline("abc `def` ghi", &[]),
        Some((
            vec![
                Rcst::TextPart("abc ".to_string()),
                Rcst::InlineCode {
                    has_opening_backtick: true,
                    code: vec![Rcst::TextPart("def".to_string())],
                    has_closing_backtick: true,
                },
                Rcst::TextPart(" ghi".to_string()),
            ],
            vec![]
        )),
    );
    assert_eq!(
        candy_frontend::comment::inline_parser::inline("abc [_def ` ghi", &[]),
        Some((
            vec![
                Rcst::TextPart("abc ".to_string()),
                Rcst::Link {
                    has_opening_bracket: true,
                    text: vec![Rcst::Emphasized {
                        has_opening_underscore: true,
                        text: vec![
                            Rcst::TextPart("def ".to_string()),
                            Rcst::InlineCode {
                                has_opening_backtick: true,
                                code: vec![Rcst::TextPart(" ghi".to_string())],
                                has_closing_backtick: false,
                            },
                        ],
                        has_closing_underscore: false,
                    }],
                    has_closing_bracket: false,
                },
            ],
            vec![
                InlineFormatting::Link,
                InlineFormatting::Emphasized,
                InlineFormatting::Code,
            ],
        )),
    );
    assert_eq!(
        candy_frontend::comment::inline_parser::inline(
            "abc` def]_ ghi",
            &[
                InlineFormatting::Link,
                InlineFormatting::Emphasized,
                InlineFormatting::Code,
            ],
        ),
        Some((
            vec![
                Rcst::Link {
                    has_opening_bracket: false,
                    text: vec![Rcst::Emphasized {
                        has_opening_underscore: false,
                        text: vec![
                            Rcst::InlineCode {
                                has_opening_backtick: false,
                                code: vec![Rcst::TextPart("abc".to_string())],
                                has_closing_backtick: true,
                            },
                            Rcst::TextPart(" def".to_string()),
                        ],
                        has_closing_underscore: false,
                    }],
                    has_closing_bracket: true,
                },
                Rcst::Emphasized {
                    has_opening_underscore: true,
                    text: vec![Rcst::TextPart(" ghi".to_string())],
                    has_closing_underscore: false,
                },
            ],
            vec![InlineFormatting::Emphasized],
        )),
    );
}

#[test]
fn test_title() {
    assert_eq!(
        title(lines(&["# Foo"])),
        Some((
            lines(&[""]),
            Rcst::Title(vec![Rcst::TitleLine {
                octothorpe_count: 1,
                text: vec![Rcst::TextPart(" Foo".to_string())],
            }]),
        )),
    );
    assert_eq!(
        title(lines(&["##Bar"])),
        Some((
            lines(&[""]),
            Rcst::Title(vec![Rcst::TitleLine {
                octothorpe_count: 2,
                text: vec![Rcst::TextPart("Bar".to_string())],
            }]),
        )),
    );
    assert_eq!(
        title(lines(&["# Foo", " ##Bar", "Baz"])),
        Some((
            lines(&["", "Baz"]),
            Rcst::Title(vec![
                Rcst::TrailingWhitespace {
                    child: Rcst::TitleLine {
                        octothorpe_count: 1,
                        text: vec![Rcst::TextPart(" Foo".to_string())],
                    }
                    .into(),
                    whitespace: vec![Rcst::Newline, Rcst::Whitespace(" ".to_string())],
                },
                Rcst::TitleLine {
                    octothorpe_count: 2,
                    text: vec![Rcst::TextPart("Bar".to_string())],
                },
            ]),
        )),
    );
    assert_eq!(title(lines(&["abc"])), None);
}

#[test]
fn test_paragraph() {
    assert_eq!(
        paragraph(lines(&["item 1 item item item", "item item "]), 0),
        Some((
            lines(&[""]),
            Rcst::Paragraph(vec![
                Rcst::TrailingWhitespace {
                    child: Box::new(Rcst::TextPart("item 1 item item item".to_string())),
                    whitespace: vec![Rcst::Newline]
                },
                Rcst::TextPart("item item ".to_string()),
            ]),
        ))
    );
    assert_eq!(
        paragraph(lines(&["item 1 item item item", "  item item ", ""]), 2),
        Some((
            lines(&["", ""]),
            Rcst::Paragraph(vec![
                Rcst::TrailingWhitespace {
                    child: Box::new(Rcst::TextPart("item 1 item item item".to_string())),
                    whitespace: vec![Rcst::Newline, Rcst::Whitespace("  ".to_string())]
                },
                Rcst::TextPart("item item ".to_string()),
            ]),
        ))
    );
    assert_eq!(
        paragraph(lines(&["item 2a", "    item item"]), 4),
        Some((
            lines(&[""]),
            Rcst::Paragraph(vec![
                Rcst::TrailingWhitespace {
                    child: Box::new(Rcst::TextPart("item 2a".to_string())),
                    whitespace: vec![Rcst::Newline, Rcst::Whitespace("    ".to_string())]
                },
                Rcst::TextPart("item item".to_string()),
            ]),
        ))
    );
}

#[test]
fn test_urls() {
    assert_eq!(
        urls(lines(&["https://github.com/candy-lang/candy"])),
        Some((
            lines(&[""]),
            Rcst::Urls(vec![Rcst::UrlLine(
                url::Url::parse("https://github.com/candy-lang/candy").unwrap().to_string(),
            )]),
        )),
    );
    assert_eq!(
        urls(lines(&[
            "https://github.com/candy-lang/candy ",
            " https://github.com/candy-lang"
        ])),
        Some((
            lines(&[""]),
            Rcst::Urls(vec![
                Rcst::TrailingWhitespace {
                    child: Rcst::UrlLine(
                        url::Url::parse("https://github.com/candy-lang/candy").unwrap().to_string(),
                    )
                    .into(),
                    whitespace: vec![
                        Rcst::Whitespace(" ".to_string()),
                        Rcst::Newline,
                        Rcst::Whitespace(" ".to_string())
                    ],
                },
                Rcst::UrlLine(url::Url::parse("https://github.com/candy-lang").unwrap().to_string()),
            ]),
        )),
    );
    assert_eq!(urls(lines(&["abc"])), None);
}

#[test]
fn test_code_block() {
    assert_eq!(
        code_block(lines(&["```", "abc", "```"])),
        Some((
            lines(&[""]),
            Rcst::CodeBlock {
                code: vec![
                    Rcst::Newline,
                    Rcst::TextPart("abc".to_string()),
                    Rcst::Newline,
                ],
                has_closing_backticks: true,
            },
        )),
    );
    assert_eq!(
        code_block(lines(&["```", "  abc", " ``` "])),
        Some((
            lines(&[" "]),
            Rcst::CodeBlock {
                code: vec![
                    Rcst::Newline,
                    Rcst::TextPart("  abc".to_string()),
                    Rcst::Newline,
                    Rcst::TextPart(" ".to_string()),
                ],
                has_closing_backticks: true,
            },
        )),
    );
    assert_eq!(
        code_block(lines(&["```", "abc", "# Foo"])),
        Some((
            vec![],
            Rcst::CodeBlock {
                code: vec![
                    Rcst::Newline,
                    Rcst::TextPart("abc".to_string()),
                    Rcst::Newline,
                    Rcst::TextPart("# Foo".to_string()),
                ],
                has_closing_backticks: false,
            },
        )),
    );
    assert_eq!(code_block(lines(&["abc"])), None);
}

#[test]
fn test_list() {
    assert_eq!(
        list(lines(&["- Foo"]), 0),
        Some((
            lines(&[""]),
            Rcst::List(vec![Rcst::ListItem {
                marker: RcstListItemMarker::Unordered {
                    has_trailing_space: true
                },
                content: vec![Rcst::Paragraph(vec![Rcst::TextPart("Foo".to_string())])]
            }]),
        )),
    );
    assert_eq!(
        list(lines(&["-Bar"]), 0),
        Some((
            lines(&[""]),
            Rcst::List(vec![Rcst::ListItem {
                marker: RcstListItemMarker::Unordered {
                    has_trailing_space: false
                },
                content: vec![Rcst::Paragraph(vec![Rcst::TextPart("Bar".to_string())])]
            }]),
        )),
    );
    assert_eq!(
        list(lines(&["0.Foo"]), 0),
        Some((
            lines(&[""]),
            Rcst::List(vec![Rcst::ListItem {
                marker: RcstListItemMarker::Ordered {
                    number: Box::new(Rcst::TextPart("0".to_string())),
                    has_trailing_space: false,
                },
                content: vec![Rcst::Paragraph(vec![Rcst::TextPart("Foo".to_string())])]
            }]),
        )),
    );
    assert_eq!(
        list(lines(&["0 .  Foo"]), 0),
        Some((
            lines(&[""]),
            Rcst::List(vec![Rcst::ListItem {
                marker: RcstListItemMarker::Ordered {
                    number: Box::new(Rcst::TrailingWhitespace {
                        child: Box::new(Rcst::TextPart("0".to_string())),
                        whitespace: vec![Rcst::Whitespace(" ".to_string())]
                    }),
                    has_trailing_space: true,
                },
                content: vec![
                    Rcst::Whitespace(" ".to_string()),
                    Rcst::Paragraph(vec![Rcst::TextPart("Foo".to_string())]),
                ],
            }]),
        )),
    );
    assert_eq!(
        list(lines(&["- Foo", ""]), 0),
        Some((
            lines(&["", ""]),
            Rcst::List(vec![Rcst::ListItem {
                marker: RcstListItemMarker::Unordered {
                    has_trailing_space: true
                },
                content: vec![Rcst::Paragraph(vec![Rcst::TextPart("Foo".to_string())])]
            }]),
        )),
    );
    assert_eq!(
        list(lines(&["- Foo", "- Bar"]), 0),
        Some((
            lines(&[""]),
            Rcst::List(vec![
                Rcst::TrailingWhitespace {
                    child: Box::new(Rcst::ListItem {
                        marker: RcstListItemMarker::Unordered {
                            has_trailing_space: true
                        },
                        content: vec![Rcst::Paragraph(vec![Rcst::TextPart("Foo".to_string())])]
                    }),
                    whitespace: vec![Rcst::Newline]
                },
                Rcst::ListItem {
                    marker: RcstListItemMarker::Unordered {
                        has_trailing_space: true
                    },
                    content: vec![Rcst::Paragraph(vec![Rcst::TextPart("Bar".to_string())])]
                },
            ]),
        )),
    );
    assert_eq!(
        list(lines(&["0. Foo", "1. Bar"]), 0),
        Some((
            lines(&[""]),
            Rcst::List(vec![
                Rcst::TrailingWhitespace {
                    child: Box::new(Rcst::ListItem {
                        marker: RcstListItemMarker::Ordered {
                            number: Box::new(Rcst::TextPart("0".to_string())),
                            has_trailing_space: true,
                        },
                        content: vec![Rcst::Paragraph(vec![Rcst::TextPart("Foo".to_string())])]
                    }),
                    whitespace: vec![Rcst::Newline]
                },
                Rcst::ListItem {
                    marker: RcstListItemMarker::Ordered {
                        number: Box::new(Rcst::TextPart("1".to_string())),
                        has_trailing_space: true,
                    },
                    content: vec![Rcst::Paragraph(vec![Rcst::TextPart("Bar".to_string())])]
                },
            ]),
        )),
    );
    assert_eq!(
        list(lines(&["- item 1", "", "  - item 1a"]), 0,),
        Some((
            lines(&[""]),
            Rcst::List(vec![Rcst::ListItem {
                marker: RcstListItemMarker::Unordered {
                    has_trailing_space: true,
                },
                content: vec![
                    Rcst::TrailingWhitespace {
                        child: Box::new(Rcst::Paragraph(vec![Rcst::TextPart(
                            "item 1".to_string(),
                        )])),
                        whitespace: vec![
                            Rcst::Newline,
                            Rcst::Newline,
                            Rcst::Whitespace("  ".to_string()),
                        ],
                    },
                    Rcst::List(vec![Rcst::ListItem {
                        marker: RcstListItemMarker::Unordered {
                            has_trailing_space: true,
                        },
                        content: vec![Rcst::Paragraph(vec![Rcst::TextPart(
                            "item 1a".to_string()
                        )])],
                    }]),
                ],
            }]),
        )),
    );
    assert_eq!(
        list(
            lines(&[
                "- item 1 item item item",
                "  item item ",
                "- item 2",
                "",
                "  - item 2a",
                "    item item",
                "  -item 2b",
                "",
                "- item 3"
            ]),
            0,
        ),
        Some((
            lines(&[""]),
            Rcst::List(vec![
                Rcst::TrailingWhitespace {
                    whitespace: vec![Rcst::Newline],
                    child: Box::new(Rcst::ListItem {
                        marker: RcstListItemMarker::Unordered {
                            has_trailing_space: true,
                        },
                        content: vec![Rcst::Paragraph(vec![
                            Rcst::TrailingWhitespace {
                                child: Box::new(Rcst::TextPart(
                                    "item 1 item item item".to_string(),
                                )),
                                whitespace: vec![
                                    Rcst::Newline,
                                    Rcst::Whitespace("  ".to_string())
                                ]
                            },
                            Rcst::TextPart("item item ".to_string()),
                        ])],
                    }),
                },
                Rcst::TrailingWhitespace {
                    whitespace: vec![Rcst::Newline, Rcst::Newline],
                    child: Box::new(Rcst::ListItem {
                        marker: RcstListItemMarker::Unordered {
                            has_trailing_space: true,
                        },
                        content: vec![
                            Rcst::TrailingWhitespace {
                                child: Box::new(Rcst::Paragraph(vec![Rcst::TextPart(
                                    "item 2".to_string(),
                                )])),
                                whitespace: vec![
                                    Rcst::Newline,
                                    Rcst::Newline,
                                    Rcst::Whitespace("  ".to_string()),
                                ],
                            },
                            Rcst::List(vec![
                                Rcst::TrailingWhitespace {
                                    child: Box::new(Rcst::ListItem {
                                        marker: RcstListItemMarker::Unordered {
                                            has_trailing_space: true,
                                        },
                                        content: vec![Rcst::Paragraph(vec![
                                            Rcst::TrailingWhitespace {
                                                child: Box::new(Rcst::TextPart(
                                                    "item 2a".to_string()
                                                )),
                                                whitespace: vec![
                                                    Rcst::Newline,
                                                    Rcst::Whitespace("    ".to_string()),
                                                ]
                                            },
                                            Rcst::TextPart("item item".to_string()),
                                        ]),],
                                    }),
                                    whitespace: vec![
                                        Rcst::Newline,
                                        Rcst::Whitespace("  ".to_string()),
                                    ],
                                },
                                Rcst::ListItem {
                                    marker: RcstListItemMarker::Unordered {
                                        has_trailing_space: false
                                    },
                                    content: vec![Rcst::Paragraph(vec![Rcst::TextPart(
                                        "item 2b".to_string()
                                    )])],
                                },
                            ]),
                        ],
                    }),
                },
                Rcst::ListItem {
                    marker: RcstListItemMarker::Unordered {
                        has_trailing_space: true
                    },
                    content: vec![Rcst::Paragraph(vec![Rcst::TextPart("item 3".to_string())])]
                },
            ]),
        )),
    );
    assert_eq!(list(lines(&["abc"]), 0), None);
}

#[test]
fn test_blocks() {
    assert_eq!(
        blocks(lines(&["item 1 item item item", "item item "]), 0),
        Some((
            vec![],
            vec![Rcst::Paragraph(vec![
                Rcst::TrailingWhitespace {
                    child: Box::new(Rcst::TextPart("item 1 item item item".to_string())),
                    whitespace: vec![Rcst::Newline]
                },
                Rcst::TextPart("item item ".to_string()),
            ])],
        )),
    );
    assert_eq!(
        blocks(lines(&["item 1 item item item", "  item item ", ""]), 2),
        Some((
            lines(&["", ""]),
            vec![Rcst::Paragraph(vec![
                Rcst::TrailingWhitespace {
                    child: Box::new(Rcst::TextPart("item 1 item item item".to_string())),
                    whitespace: vec![Rcst::Newline, Rcst::Whitespace("  ".to_string())]
                },
                Rcst::TextPart("item item ".to_string()),
            ])],
        )),
    );
    assert_eq!(
        blocks(lines(&["foo", "", "  bar"]), 2),
        Some((
            lines(&[""]),
            vec![
                Rcst::TrailingWhitespace {
                    child: Box::new(Rcst::Paragraph(vec![Rcst::TextPart("foo".to_string())])),
                    whitespace: vec![
                        Rcst::Newline,
                        Rcst::Newline,
                        Rcst::Whitespace("  ".to_string()),
                    ]
                },
                Rcst::Paragraph(vec![Rcst::TextPart("bar".to_string()),])
            ],
        )),
    );
}

#[test]
fn parsed_comment_keeps_its_text() {
    let source = lines(&[
        "# Title",
        "",
        "Some _text_ with `code` and [a link].",
        "- item",
        "  - nested item",
        "1. first",
        "```",
        "let x = 1",
        "```",
    ]);
    let (rest, parts) = blocks(source.clone(), 0).unwrap();
    assert!(rest.is_empty());
    let text: String = parts.iter().map(|part| part.to_string()).collect();
    assert_eq!(text, source.join("\n"));
}

#[test]
fn lone_trailing_backslash_leaves_no_text() {
    let (parts, state) =
        candy_frontend::comment::inline_parser::inline("ab\\", &[]).unwrap();
    assert_eq!(
        parts,
        vec![
            Rcst::TextPart("ab".to_string()),
            Rcst::Error {
                child: None,
                error: RcstError::EscapeMissesChar,
            },
        ]
    );
    assert!(state.is_empty());
    let text: String = parts.iter().map(|part| part.to_string()).collect();
    assert_eq!(text, "ab");
}

#[test]
fn empty_line_with_open_formatting_still_closes_it() {
    assert_eq!(
        candy_frontend::comment::inline_parser::inline("", &[InlineFormatting::Link]),
        Some((
            vec![Rcst::Link {
                has_opening_bracket: false,
                text: vec![],
                has_closing_bracket: false,
            }],
            vec![InlineFormatting::Link],
        ))
    );
    assert_eq!(candy_frontend::comment::inline_parser::inline("", &[]), None);
}

#[test]
fn list_item_markers() {
    assert_eq!(
        unordered_list_item_marker("- x"),
        Some((
            "x".to_string(),
            RcstListItemMarker::Unordered {
                has_trailing_space: true
            },
            2
        ))
    );
    assert_eq!(
        unordered_list_item_marker("-x"),
        Some((
            "x".to_string(),
            RcstListItemMarker::Unordered {
                has_trailing_space: false
            },
            1
        ))
    );
    assert_eq!(unordered_list_item_marker("x"), None);
    assert_eq!(
        ordered_list_item_marker("12 . x"),
        Some((
            "x".to_string(),
            RcstListItemMarker::Ordered {
                number: Box::new(Rcst::TrailingWhitespace {
                    child: Box::new(Rcst::TextPart("12".to_string())),
                    whitespace: vec![Rcst::Whitespace(" ".to_string())],
                }),
                has_trailing_space: true,
            },
            5
        ))
    );
    assert_eq!(ordered_list_item_marker("12 x"), None);
    assert_eq!(ordered_list_item_marker(". x"), None);
}

#[test]
fn url_lines_hold_the_parsed_url() {
    assert_eq!(
        url_line(lines(&["https://example.com rest"])),
        Some((
            lines(&[" rest"]),
            Rcst::UrlLine("https://example.com/".to_string())
        ))
    );
    assert_eq!(
        url_line(lines(&["http://[::1"])),
        Some((
            lines(&[""]),
            Rcst::Error {
                child: Some(Box::new(Rcst::TextPart("http://[::1".to_string()))),
                error: RcstError::UrlInvalid,
            }
        ))
    );
    assert_eq!(url_line(lines(&["ftp://example.com"])), None);
}

#[test]
fn title_line_without_text() {
    assert_eq!(
        title_line("##", vec![]),
        Some((
            Rcst::TitleLine {
                octothorpe_count: 2,
                text: vec![],
            },
            vec![]
        ))
    );
    assert_eq!(title_line("", vec![]), None);
}

#[test]
fn top_level_blocks_take_trailing_whitespace() {
    assert_eq!(
        blocks(lines(&["foo", ""]), 0),
        Some((
            vec![],
            vec![Rcst::TrailingWhitespace {
                child: Box::new(Rcst::Paragraph(vec![Rcst::TextPart("foo".to_string())])),
                whitespace: vec![Rcst::Newline],
            }],
        ))
    );
    assert_eq!(
        blocks(lines(&["  "]), 0),
        Some((vec![], vec![Rcst::Whitespace("  ".to_string())]))
    );
    assert_eq!(blocks(lines(&[""]), 0), None);
}

fn node(id: usize, start: usize, end: usize, kind: CstKind) -> Cst {
    Cst { data: CstData { id: Id(id), span: Offset(start)..Offset(end) }, kind }
}

fn comment(id: usize, start: usize, text: &str) -> Cst {
    node(
        id,
        start,
        start + 1 + text.len(),
        CstKind::Comment {
            octothorpe: Box::new(node(id + 100, start, start + 1, CstKind::Octothorpe)),
            comment: text.to_string(),
        },
    )
}

#[test]
fn module_comment_is_the_leading_comments_and_whitespace() {
    let csts = vec![
        comment(0, 0, " Doc"),
        node(1, 4, 5, CstKind::Newline("\n".to_string())),
        node(2, 5, 7, CstKind::Whitespace("  ".to_string())),
        node(3, 7, 10, CstKind::Identifier("foo".to_string())),
        comment(4, 10, " not part"),
    ];
    let parts = leading_comment_parts(&csts);
    assert_eq!(format!("{parts:?}"), format!("{:?}", &csts[..3]));
    assert!(leading_comment_parts(&vec![]).is_empty());
}

#[test]
fn comment_lines_drop_one_leading_space() {
    let csts = vec![
        comment(0, 0, " Doc"),
        node(1, 4, 5, CstKind::Newline("\n".to_string())),
        comment(2, 5, "  indented"),
        node(3, 15, 16, CstKind::Newline("\n".to_string())),
        comment(4, 16, "tight"),
    ];
    assert_eq!(comment_lines(&csts), lines(&["Doc", " indented", "tight"]));
    assert_eq!(comment_lines(&vec![]), Vec::<String>::new());
}

#[test]
fn assignment_comment_is_the_whitespace_after_its_sign() {
    let whitespace = vec![
        node(3, 5, 6, CstKind::Whitespace(" ".to_string())),
        comment(4, 6, " Doc"),
    ];
    let sign = node(
        2,
        4,
        10,
        CstKind::TrailingWhitespace {
            child: Box::new(node(5, 4, 5, CstKind::EqualsSign)),
            whitespace: whitespace.clone(),
        },
    );
    let assignment = node(
        0,
        0,
        12,
        CstKind::Assignment {
            left: Box::new(node(1, 0, 3, CstKind::Identifier("foo".to_string()))),
            assignment_sign: Box::new(sign),
            body: vec![node(6, 11, 12, CstKind::Identifier("x".to_string()))],
        },
    );
    assert_eq!(
        format!("{:?}", assignment_comment_parts(&assignment)),
        format!("{whitespace:?}"),
    );
    let bare = node(
        0,
        0,
        5,
        CstKind::Assignment {
            left: Box::new(node(1, 0, 3, CstKind::Identifier("foo".to_string()))),
            assignment_sign: Box::new(node(2, 3, 4, CstKind::EqualsSign)),
            body: vec![],
        },
    );
    assert!(assignment_comment_parts(&bare).is_empty());
}

#[test]
fn comment_rcsts_parse_all_lines() {
    assert_eq!(
        comment_rcsts(lines(&["Doc", "", "- item"])),
        vec![
            Rcst::TrailingWhitespace {
                child: Box::new(Rcst::Paragraph(vec![Rcst::TextPart("Doc".to_string())])),
                whitespace: vec![Rcst::Newline, Rcst::Newline],
            },
            Rcst::List(vec![Rcst::ListItem {
                marker: RcstListItemMarker::Unordered { has_trailing_space: true },
                content: vec![Rcst::Paragraph(vec![Rcst::TextPart("item".to_string())])],
            }]),
        ]
    );
}

#[test]
fn comment_rcsts_keep_the_text() {
    let rcsts = comment_rcsts(lines(&["# Title", "Doc with `code`", "", "- item", "  more"]));
    let text: String = rcsts.iter().map(|it| it.to_string()).collect();
    assert_eq!(text, "# Title\nDoc with `code`\n\n- item\n  more");
}

#[test]
fn try_comment_rcsts_gives_the_tree_where_there_is_one() {
    assert_eq!(
        try_comment_rcsts(lines(&["Doc"])),
        Some(vec![Rcst::Paragraph(vec![Rcst::TextPart("Doc".to_string())])]),
    );
    assert_eq!(try_comment_rcsts(vec![]), None);
}

#[test]
fn comment_lines_with_other_schemes_keep_their_text() {
    let rcsts = comment_rcsts(lines(&["see a://b for more", "", "- item"]));
    let text: String = rcsts.iter().map(|it| it.to_string()).collect();
    assert_eq!(text, "see a://b for more\n\n- item");
}
