use slate::highlight::{apply_search_highlight, highlight_markdown_line, look_of, parse_inline, white_space, Colour, HitMark, SpanKind, SpanStyle, StyledSpan};

fn kinds(v: &[StyledSpan]) -> Vec<(String, SpanKind)> {
    v.iter().map(|s| (s.text.clone(), s.style.kind)).collect()
}

fn p(t: &str, k: SpanKind) -> (String, SpanKind) {
    (t.to_string(), k)
}

#[test]
fn headings_rules_quotes_fences() {
    assert_eq!(kinds(&highlight_markdown_line("### Three")), vec![p("### ", SpanKind::Dim), p("Three", SpanKind::Heading3)]);
    assert_eq!(kinds(&highlight_markdown_line("## Two")), vec![p("## ", SpanKind::Dim), p("Two", SpanKind::Heading2)]);
    assert_eq!(kinds(&highlight_markdown_line("# One")), vec![p("# ", SpanKind::Dim), p("One", SpanKind::Heading1)]);
    assert_eq!(kinds(&highlight_markdown_line("---")), vec![p("---", SpanKind::Dim)]);
    assert_eq!(kinds(&highlight_markdown_line("> said")), vec![p("> ", SpanKind::Dim), p("said", SpanKind::Quote)]);
    assert_eq!(kinds(&highlight_markdown_line("```rust")), vec![p("```rust", SpanKind::Fence)]);
}

#[test]
fn list_items() {
    assert_eq!(kinds(&highlight_markdown_line("- item **b**")), vec![p("- ", SpanKind::Bullet), p("item ", SpanKind::Plain), p("**b**", SpanKind::Bold)]);
    assert_eq!(kinds(&highlight_markdown_line("  * deep")), vec![p("  * ", SpanKind::Bullet), p("deep", SpanKind::Plain)]);
    assert_eq!(kinds(&highlight_markdown_line("  12. twelve")), vec![p("  12. ", SpanKind::Bullet), p("twelve", SpanKind::Plain)]);
    assert_eq!(kinds(&highlight_markdown_line("1x. no")), vec![p("1x. no", SpanKind::Plain)]);
    assert_eq!(kinds(&highlight_markdown_line("- [ ] task")), vec![p("- ", SpanKind::Bullet), p("[ ] task", SpanKind::Plain)]);
}

#[test]
fn inline_markup() {
    assert_eq!(
        kinds(&parse_inline("a `c` ***bi*** **b** *i* _u_ [t](u) [[w]] z")),
        vec![
            p("a ", SpanKind::Plain),
            p("`c`", SpanKind::Code),
            p(" ", SpanKind::Plain),
            p("***bi***", SpanKind::BoldItalic),
            p(" ", SpanKind::Plain),
            p("**b**", SpanKind::Bold),
            p(" ", SpanKind::Plain),
            p("*i*", SpanKind::Italic),
            p(" ", SpanKind::Plain),
            p("_u_", SpanKind::Italic),
            p(" ", SpanKind::Plain),
            p("[t](u)", SpanKind::Link),
            p(" ", SpanKind::Plain),
            p("[[w]]", SpanKind::WikiLink),
            p(" z", SpanKind::Plain),
        ]
    );
}

#[test]
fn unclosed_markup_runs_to_the_end() {
    assert_eq!(kinds(&parse_inline("x `code")), vec![p("x ", SpanKind::Plain), p("`code`", SpanKind::Code)]);
    assert_eq!(kinds(&parse_inline("**bold")), vec![p("**bol**", SpanKind::Bold)]);
    assert_eq!(kinds(&parse_inline("a*")), vec![p("a*", SpanKind::Plain)]);
    assert_eq!(kinds(&parse_inline("[x] y")), vec![p("[x] y", SpanKind::Plain)]);
    assert!(parse_inline("").is_empty());
}

#[test]
fn whitespace_is_unicode() {
    assert!(white_space(' '));
    assert!(white_space('\u{3000}'));
    assert!(!white_space('x'));
    assert_eq!(kinds(&highlight_markdown_line("\u{3000}3. x")), vec![p("\u{3000}3. ", SpanKind::Bullet), p("x", SpanKind::Plain)]);
}

#[test]
fn search_hits_split_pieces() {
    let plain = SpanStyle { kind: SpanKind::Plain, hit: HitMark::NoHit };
    let bold = SpanStyle { kind: SpanKind::Bold, hit: HitMark::NoHit };
    let spans = vec![
        StyledSpan { text: "hello ".to_string(), style: plain },
        StyledSpan { text: "**world**".to_string(), style: bold },
    ];
    let out = apply_search_highlight(&spans, &[(3, 9)], true);
    let got: Vec<(String, SpanStyle)> = out.iter().map(|s| (s.text.clone(), s.style)).collect();
    assert_eq!(
        got,
        vec![
            ("hel".to_string(), plain),
            ("lo ".to_string(), SpanStyle { kind: SpanKind::Plain, hit: HitMark::CurrentHit }),
            ("**w".to_string(), SpanStyle { kind: SpanKind::Bold, hit: HitMark::CurrentHit }),
            ("orld**".to_string(), bold),
        ]
    );
    let same = apply_search_highlight(&spans, &[], false);
    assert_eq!(same.len(), 2);
    assert_eq!(same[1].text, "**world**");
}

#[test]
fn looks_of_kinds_and_hits() {
    let head = look_of(SpanStyle { kind: SpanKind::Heading1, hit: HitMark::NoHit });
    assert_eq!(head.fg, Colour::Blue);
    assert!(head.bold && !head.italic);
    let code = look_of(SpanStyle { kind: SpanKind::Code, hit: HitMark::NoHit });
    assert_eq!((code.fg, code.bg), (Colour::Yellow, Colour::Rgb(40, 40, 40)));
    let hit = look_of(SpanStyle { kind: SpanKind::Italic, hit: HitMark::CurrentHit });
    assert_eq!((hit.fg, hit.bg), (Colour::White, Colour::Rgb(200, 120, 0)));
    assert!(hit.bold && hit.italic);
}
