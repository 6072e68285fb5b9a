use blogs_md_easy::{
    splice, Patch, get_allow_list, render_document, separate_headings, unused_variables, AllowList,
    create_variables, is_alphabetic, is_filter_arg, is_filter_name, is_filter_value,
    parse_filter, parse_filter_args, parse_filter_key_value, parse_filters, parse_meta_key,
    parse_meta_line, parse_meta_section, parse_meta_value, parse_placeholder,
    parse_placeholder_locations, parse_title, parse_variable_name, render_filter, render_filters,
    replace_substring, split_string, substitute, take_till_placeholder, try_render_filter, Filter,
    Marker, Meta, Placeholder, RenderError, Selection, Span, SyntaxError, TextCase, Variables,
};

fn table(entries: &[(&str, &str)]) -> Variables {
    let mut variables = Variables::new();
    for (key, value) in entries {
        variables.insert(key.to_string(), value.to_string());
    }
    variables
}

fn section(text: &str) -> Result<(Span<'_>, Vec<Meta>), SyntaxError> {
    parse_meta_section(Span::new(text))
}

fn render(template: &str, markdown: &str) -> Result<String, RenderError> {
    let source = Span::new(markdown);
    let (rest, metas) = match parse_meta_section(source) {
        Ok(found) => found,
        Err(SyntaxError::MalformedMeta) => return Err(RenderError::MalformedMetadata),
        Err(_) => (source, vec![]),
    };
    let variables = create_variables(rest, metas)?;
    let placeholders =
        parse_placeholder_locations(Span::new(template)).map_err(|_| RenderError::UnknownFilter)?;
    substitute(template, &placeholders, &variables)
}

#[test]
fn template_without_placeholders_is_unchanged() {
    let template = "<html>\n<body>{ not a placeholder }</body>\n</html>";
    let placeholders = parse_placeholder_locations(Span::new(template)).unwrap();
    assert!(placeholders.is_empty());
    let out = substitute(template, &placeholders, &table(&[("title", "T")])).unwrap();
    assert_eq!(out, template);
    assert_eq!(substitute("", &vec![], &Variables::new()).unwrap(), "");
}

#[test]
fn substitution_ignores_the_order_of_the_list() {
    let template = "a {{ £one }} b {{ £two | uppercase }} c {{ £three }} d";
    let variables = table(&[("one", "1"), ("two", "zwei"), ("three", "33333333333333333")]);
    let sorted = parse_placeholder_locations(Span::new(template)).unwrap();
    assert_eq!(sorted.len(), 3);
    let expected = "a 1 b ZWEI c 33333333333333333 d";
    assert_eq!(substitute(template, &sorted, &variables).unwrap(), expected);
    let ascending: Vec<Placeholder> = sorted.iter().rev().cloned().collect();
    assert_eq!(substitute(template, &ascending, &variables).unwrap(), expected);
    let mixed = vec![sorted[1].clone(), sorted[2].clone(), sorted[0].clone()];
    assert_eq!(substitute(template, &mixed, &variables).unwrap(), expected);
}

#[test]
fn truncate_appends_the_trail_behind_the_limit() {
    let filter = Filter::Truncate { characters: 5, trail: "...".to_string() };
    assert_eq!(render_filter("Hello, World!".to_string(), &filter), "Hello...");
    assert_eq!(render_filter("Hello".to_string(), &filter), "Hello");
    assert_eq!(render_filter("".to_string(), &filter), "");
    let none = Filter::Truncate { characters: 0, trail: "~".to_string() };
    assert_eq!(render_filter("abc".to_string(), &none), "~");
}

#[test]
fn truncate_counts_characters_not_bytes() {
    let filter = Filter::Truncate { characters: 3, trail: "…".to_string() };
    assert_eq!(render_filter("£££££".to_string(), &filter), "£££…");
    assert_eq!(render_filter("£££".to_string(), &filter), "£££");
}

#[test]
fn replace_with_limit_leaves_later_occurrences() {
    let filter =
        Filter::Replace { find: "!".to_string(), replacement: "".to_string(), limit: Some(2) };
    assert_eq!(render_filter("Hello, World!!!".to_string(), &filter), "Hello, World!");
    let first = Filter::Replace {
        find: "World".to_string(),
        replacement: "Rust".to_string(),
        limit: Some(1),
    };
    assert_eq!(
        render_filter("Hello, World! Hello, World!".to_string(), &first),
        "Hello, Rust! Hello, World!"
    );
    let zero =
        Filter::Replace { find: "l".to_string(), replacement: "L".to_string(), limit: Some(0) };
    assert_eq!(render_filter("Hello".to_string(), &zero), "Hello");
}

#[test]
fn replace_without_limit_replaces_all() {
    let filter =
        Filter::Replace { find: "World".to_string(), replacement: "Rust".to_string(), limit: None };
    assert_eq!(render_filter("Hello, World!".to_string(), &filter), "Hello, Rust!");
    let overlap =
        Filter::Replace { find: "aa".to_string(), replacement: "b".to_string(), limit: None };
    assert_eq!(render_filter("aaaaa".to_string(), &overlap), "bba");
    assert_eq!(render_filter("aaaaa".to_string(), &overlap), "aaaaa".replace("aa", "b"));
}

#[test]
fn replace_of_the_empty_text() {
    let all = Filter::Replace { find: "".to_string(), replacement: "-".to_string(), limit: None };
    assert_eq!(render_filter("ab".to_string(), &all), "-a-b-");
    assert_eq!(render_filter("ab".to_string(), &all), "ab".replace("", "-"));
    assert_eq!(render_filter("".to_string(), &all), "-");
    let one = Filter::Replace { find: "".to_string(), replacement: "-".to_string(), limit: Some(1) };
    assert_eq!(render_filter("ab".to_string(), &one), "-ab");
    let nothing =
        Filter::Replace { find: "".to_string(), replacement: "".to_string(), limit: None };
    assert_eq!(render_filter("Hello, World!".to_string(), &nothing), "Hello, World!");
}

#[test]
fn title_case_capitalises_each_word() {
    let filter = Filter::Text { case: TextCase::Title };
    assert_eq!(render_filter("john doe-bloggs".to_string(), &filter), "John Doe-Bloggs");
    assert_eq!(render_filter("hello,  world!".to_string(), &filter), "Hello,  World!");
    assert_eq!(render_filter("".to_string(), &filter), "");
    assert_eq!(render_filter("ßa".to_string(), &filter), "SSa");
}

#[test]
fn text_cases_render() {
    let text = |case: TextCase, input: &str| render_filter(input.to_string(), &Filter::Text { case });
    assert_eq!(text(TextCase::Lower, "Hello, World!"), "hello, world!");
    assert_eq!(text(TextCase::Upper, "Hello, World!"), "HELLO, WORLD!");
    assert_eq!(text(TextCase::Kebab, "Kebab case"), "kebab-case");
    assert_eq!(text(TextCase::Kebab, "  a,b__c!"), "a-b-c");
    assert_eq!(text(TextCase::Snake, "snake case"), "snake_case");
    assert_eq!(text(TextCase::Snake, "One-Two three"), "one_two_three");
    assert_eq!(text(TextCase::Pascal, "pascal case"), "PascalCase");
    assert_eq!(text(TextCase::Camel, "camel case"), "camelCase");
    assert_eq!(text(TextCase::Camel, "Camel Case-again"), "camelCaseAgain");
    assert_eq!(text(TextCase::Invert, "Hello, World!"), "hELLO, wORLD!");
    assert_eq!(text(TextCase::Kebab, ""), "");
    assert_eq!(text(TextCase::Pascal, " - "), "");
}

#[test]
fn lowercase_and_uppercase_fold_unicode() {
    assert_eq!(render_filter("ÀÉÎ".to_string(), &Filter::Lowercase), "àéî");
    assert_eq!(render_filter("straße".to_string(), &Filter::Uppercase), "STRASSE");
}

#[test]
fn reverse_works_on_scalar_values() {
    assert_eq!(render_filter("a£b€".to_string(), &Filter::Reverse), "€b£a");
    assert_eq!(render_filter("".to_string(), &Filter::Reverse), "");
}

#[test]
fn markdown_passes_html_and_drops_dangerous_protocols() {
    let html = render_filter("<b>bold</b> text".to_string(), &Filter::Markdown);
    assert_eq!(html, "<p><b>bold</b> text</p>");
    let link = render_filter("[x](javascript:alert(1))".to_string(), &Filter::Markdown);
    assert_eq!(link, "<p><a href=\"\">x</a></p>");
}

#[test]
fn numeric_filters_are_told_apart() {
    assert_eq!(try_render_filter("1.5".to_string(), &Filter::Ceil), None);
    assert_eq!(try_render_filter("1.5".to_string(), &Filter::Floor), None);
    assert_eq!(try_render_filter("1.5".to_string(), &Filter::Round { precision: 1 }), None);
    assert_eq!(try_render_filter("Ab".to_string(), &Filter::Reverse), Some("bA".to_string()));
    assert!(Filter::Ceil.is_numeric());
    assert!(!Filter::Markdown.is_numeric());
    assert_eq!(render_filters("x".to_string(), &vec![Filter::Uppercase, Filter::Ceil]), None);
}

#[test]
fn filters_apply_from_left_to_right() {
    let filters = vec![
        Filter::Truncate { characters: 5, trail: "!".to_string() },
        Filter::Uppercase,
        Filter::Reverse,
    ];
    assert_eq!(render_filters("hello world".to_string(), &filters), Some("!OLLEH".to_string()));
    assert_eq!(render_filters("same".to_string(), &vec![]), Some("same".to_string()));
}

#[test]
fn metadata_title_wins_over_heading() {
    let markdown = ":meta\ntitle = Meta title\n:meta\n# MD Title\nBody";
    assert_eq!(render("{{ £title }}", markdown).unwrap(), "Meta title");
}

#[test]
fn heading_is_the_title_without_metadata() {
    assert_eq!(render("<t>{{ £title }}</t>", "# MD Title\nBody").unwrap(), "<t>MD Title</t>");
    assert_eq!(render("{{ £title }}", "\n  <h1>Html</h1>\nBody").unwrap(), "Html");
}

#[test]
fn content_is_rendered_as_markdown() {
    let out = render("<main>{{ £content }}</main>", "# T\nBody *here*").unwrap();
    assert_eq!(out, "<main><h1>T</h1>\n<p>Body <em>here</em></p></main>");
    let upper = render("{{ £CONTENT }}", ":meta\nCONTENT = *x*\n:meta\n# T").unwrap();
    assert_eq!(upper, "<p><em>x</em></p>");
}

#[test]
fn missing_variable_is_named() {
    let err = render("<p>{{ £missing }}</p>", "# Title\nBody").unwrap_err();
    assert_eq!(err, RenderError::MissingVariable { name: "missing".to_string() });
    let placeholders = parse_placeholder_locations(Span::new("{{ £a }} {{ £b }}")).unwrap();
    let err = substitute("{{ £a }} {{ £b }}", &placeholders, &table(&[("b", "1")])).unwrap_err();
    assert_eq!(err, RenderError::MissingVariable { name: "a".to_string() });
}

#[test]
fn missing_title_is_an_error() {
    let err = create_variables(Span::new("Just text"), vec![]).unwrap_err();
    assert_eq!(err, RenderError::MissingTitle);
    assert_eq!(render("{{ £title }}", "no heading").unwrap_err(), RenderError::MissingTitle);
}

#[test]
fn numeric_filter_in_a_substitution_is_an_error() {
    let template = "{{ £n | ceil }}";
    let placeholders = parse_placeholder_locations(Span::new(template)).unwrap();
    assert_eq!(placeholders[0].filters, vec![Filter::Ceil]);
    let err = substitute(template, &placeholders, &table(&[("n", "1.2")])).unwrap_err();
    assert_eq!(err, RenderError::NumericFilter { name: "n".to_string() });
}

#[test]
fn selection_outside_the_text_is_an_error() {
    let inside = Selection {
        start: Marker { line: 1, offset: 1 },
        end: Marker { line: 1, offset: 2 },
    };
    let p = Placeholder { name: "v".to_string(), selection: inside, filters: vec![] };
    let variables = table(&[("v", "x")]);
    assert_eq!(substitute("abc", &vec![p.clone()], &variables).unwrap(), "axc");
    let err = substitute("£bc", &vec![p.clone()], &variables).unwrap_err();
    assert_eq!(err, RenderError::InvalidSelection { name: "v".to_string() });
    let beyond = Selection {
        start: Marker { line: 1, offset: 2 },
        end: Marker { line: 1, offset: 9 },
    };
    let q = Placeholder { name: "v".to_string(), selection: beyond, filters: vec![] };
    let err = substitute("abc", &vec![q], &variables).unwrap_err();
    assert_eq!(err, RenderError::InvalidSelection { name: "v".to_string() });
    let backwards = Selection {
        start: Marker { line: 1, offset: 2 },
        end: Marker { line: 1, offset: 1 },
    };
    let r = Placeholder { name: "v".to_string(), selection: backwards, filters: vec![] };
    let err = substitute("abc", &vec![r], &variables).unwrap_err();
    assert_eq!(err, RenderError::InvalidSelection { name: "v".to_string() });
}

#[test]
fn unknown_filter_is_a_syntax_error() {
    assert_eq!(parse_filter(Span::new("shout")).unwrap_err(), SyntaxError::UnknownFilter);
    assert_eq!(parse_filter(Span::new("")).unwrap_err(), SyntaxError::UnknownFilter);
    assert_eq!(parse_filters(Span::new("| shout")).unwrap_err(), SyntaxError::UnknownFilter);
    assert_eq!(parse_filters(Span::new("uppercase")).unwrap_err(), SyntaxError::NoMatch);
    let template = "<p>{{ £a }} {{ £b | shout }}</p>";
    assert_eq!(parse_placeholder(Span::new("{{ £b | shout }}")).unwrap_err(), SyntaxError::UnknownFilter);
    assert_eq!(take_till_placeholder(Span::new("x {{ £b | shout }}")).unwrap_err(), SyntaxError::UnknownFilter);
    assert_eq!(
        parse_placeholder_locations(Span::new(template)).unwrap_err(),
        SyntaxError::UnknownFilter
    );
    assert_eq!(render(template, "# T").unwrap_err(), RenderError::UnknownFilter);
}

#[test]
fn every_delimiter_pair_gives_one_placeholder() {
    let template = "{{ £a }}{{ £b }} {{ broken }} {{ £c|reverse }} }} {{ {{ £d }}";
    let placeholders = parse_placeholder_locations(Span::new(template)).unwrap();
    let names: Vec<&str> = placeholders.iter().map(|p| p.name.as_str()).collect();
    assert_eq!(names, vec!["d", "c", "b", "a"]);
    for p in &placeholders {
        let text = &template[p.selection.start.offset..p.selection.end.offset];
        assert!(text.starts_with("{{") && text.ends_with("}}"));
        assert_eq!(text.matches("{{").count(), 1);
        assert_eq!(text.matches("}}").count(), 1);
    }
    for pair in placeholders.windows(2) {
        assert!(pair[0].selection.start.offset >= pair[1].selection.end.offset);
    }
}

#[test]
fn offsets_count_bytes_and_lines() {
    let template = "£\n€ {{ £x }}\n{{ £y\n}}";
    let placeholders = parse_placeholder_locations(Span::new(template)).unwrap();
    assert_eq!(placeholders.len(), 2);
    assert_eq!(
        placeholders[1].selection,
        Selection { start: Marker { line: 2, offset: 7 }, end: Marker { line: 2, offset: 16 } }
    );
    assert_eq!(
        placeholders[0].selection,
        Selection { start: Marker { line: 3, offset: 17 }, end: Marker { line: 4, offset: 26 } }
    );
    let out = substitute(template, &placeholders, &table(&[("x", "1"), ("y", "2")])).unwrap();
    assert_eq!(out, "£\n€ 1\n2");
}

#[test]
fn take_till_placeholder_skips_text() {
    let (rest, p) = take_till_placeholder(Span::new("<p>{{ £name | reverse }}</p>")).unwrap();
    assert_eq!(p.name, "name");
    assert_eq!(p.filters, vec![Filter::Reverse]);
    assert_eq!(p.selection.start.offset, 3);
    assert_eq!(p.selection.end.offset, 25);
    assert_eq!(rest.fragment(), "</p>");
    assert_eq!(rest.location_offset(), 25);
    assert_eq!(take_till_placeholder(Span::new("<p></p>")).unwrap_err(), SyntaxError::NoMatch);
}

#[test]
fn content_placeholder_gets_markdown_once() {
    let (_, p) = parse_placeholder(Span::new("{{ £content }}")).unwrap();
    assert_eq!(p.filters, vec![Filter::Markdown]);
    let (_, p) = parse_placeholder(Span::new("{{ £Content | uppercase }}")).unwrap();
    assert_eq!(p.filters, vec![Filter::Text { case: TextCase::Upper }, Filter::Markdown]);
    let (_, p) = parse_placeholder(Span::new("{{ £content | markdown | reverse }}")).unwrap();
    assert_eq!(p.filters, vec![Filter::Markdown, Filter::Reverse]);
    let (_, p) = parse_placeholder(Span::new("{{ £contents }}")).unwrap();
    assert_eq!(p.filters, vec![]);
}

#[test]
fn filter_arguments_fall_back() {
    let parse = |text: &str| parse_filter(Span::new(text)).unwrap().1;
    assert_eq!(parse("round"), Filter::Round { precision: 0 });
    assert_eq!(parse("round = 3"), Filter::Round { precision: 3 });
    assert_eq!(parse("round = precision: 42"), Filter::Round { precision: 42 });
    assert_eq!(parse("round = abc"), Filter::Round { precision: 0 });
    assert_eq!(parse("round = 256"), Filter::Round { precision: 0 });
    assert_eq!(parse("round = +7"), Filter::Round { precision: 7 });
    assert_eq!(parse("round = 007"), Filter::Round { precision: 7 });
    assert_eq!(parse("round = -1"), Filter::Round { precision: 0 });
    assert_eq!(parse("truncate = 300"), Filter::Truncate { characters: 100, trail: "...".to_string() });
    assert_eq!(parse("truncate = 255"), Filter::Truncate { characters: 255, trail: "...".to_string() });
    assert_eq!(parse("ceil"), Filter::Ceil);
    assert_eq!(parse("FLOOR"), Filter::Floor);
    assert_eq!(parse("Reverse"), Filter::Reverse);
    assert_eq!(parse("markdown"), Filter::Markdown);
    assert_eq!(
        parse("replace"),
        Filter::Replace { find: "".to_string(), replacement: "".to_string(), limit: None }
    );
    assert_eq!(
        parse("replace = World"),
        Filter::Replace { find: "World".to_string(), replacement: "".to_string(), limit: None }
    );
    assert_eq!(
        parse("replace = !, limit: 2"),
        Filter::Replace { find: "!".to_string(), replacement: "".to_string(), limit: Some(2) }
    );
    assert_eq!(
        parse("replace = find: World, replacement: Rust, limit: x"),
        Filter::Replace { find: "World".to_string(), replacement: "Rust".to_string(), limit: None }
    );
    assert_eq!(
        parse("replace = find: a, find: b"),
        Filter::Replace { find: "b".to_string(), replacement: "".to_string(), limit: None }
    );
}

#[test]
fn text_filter_reads_its_case() {
    let parse = |text: &str| parse_filter(Span::new(text)).unwrap().1;
    assert_eq!(parse("text"), Filter::Text { case: TextCase::Lower });
    assert_eq!(parse("text = upper"), Filter::Text { case: TextCase::Upper });
    assert_eq!(parse("text = uppercase"), Filter::Text { case: TextCase::Upper });
    assert_eq!(parse("text = lowercase"), Filter::Text { case: TextCase::Lower });
    assert_eq!(parse("text = case: title"), Filter::Text { case: TextCase::Title });
    assert_eq!(parse("text = kebab"), Filter::Text { case: TextCase::Kebab });
    assert_eq!(parse("text = kebab-case"), Filter::Text { case: TextCase::Kebab });
    assert_eq!(parse("text = snake_case"), Filter::Text { case: TextCase::Snake });
    assert_eq!(parse("text = PascalCase"), Filter::Text { case: TextCase::Pascal });
    assert_eq!(parse("text = camelCase"), Filter::Text { case: TextCase::Camel });
    assert_eq!(parse("text = inverse"), Filter::Text { case: TextCase::Invert });
    assert_eq!(parse("text = invert"), Filter::Text { case: TextCase::Invert });
    assert_eq!(parse("text = sideways"), Filter::Text { case: TextCase::Lower });
    assert_eq!(TextCase::from_name(&"pascal".chars().collect()), Some(TextCase::Pascal));
    assert_eq!(TextCase::from_name(&"nothing".chars().collect()), None);
}

#[test]
fn filter_arguments_parse() {
    let (rest, (key, value)) = parse_filter_key_value(Span::new("20 | next")).unwrap();
    assert_eq!((key.as_str(), value.as_str()), ("_", "20"));
    assert_eq!(rest.fragment(), " | next");
    let (rest, (key, value)) = parse_filter_key_value(Span::new("a_1 :  b-c, d")).unwrap();
    assert_eq!((key.as_str(), value.as_str()), ("a_1", "b-c"));
    assert_eq!(rest.fragment(), ", d");
    let (rest, args) = parse_filter_args(Span::new("x , k: v,z }}")).unwrap();
    assert_eq!(
        args,
        vec![
            ("_".to_string(), "x".to_string()),
            ("k".to_string(), "v".to_string()),
            ("_".to_string(), "z".to_string()),
        ]
    );
    assert_eq!(rest.fragment(), " }}");
    let (rest, args) = parse_filter_args(Span::new("")).unwrap();
    assert_eq!(args, vec![("_".to_string(), "".to_string())]);
    assert_eq!(rest.fragment(), "");
}

#[test]
fn character_classes() {
    assert!(is_alphabetic('a') && is_alphabetic('Z'));
    assert!(!is_alphabetic('1') && !is_alphabetic('_') && !is_alphabetic('é'));
    assert!(is_filter_name('a') && is_filter_name('_') && is_filter_name('9') && is_filter_name('é'));
    assert!(!is_filter_name('-') && !is_filter_name(' '));
    assert!(is_filter_arg('a') && is_filter_arg('_') && !is_filter_arg(':'));
    assert!(is_filter_value('a') && is_filter_value('.') && is_filter_value('-'));
    for c in [' ', '|', ',', '{', '}'] {
        assert!(!is_filter_value(c));
    }
}

#[test]
fn split_string_keeps_the_separators() {
    let words = split_string("john doe-bloggs".to_string(), &[' ', '-']);
    assert_eq!(words, vec!["john", " ", "doe", "-", "bloggs"]);
    let words = split_string("--a--".to_string(), &['-']);
    assert_eq!(words, vec!["-", "-", "a", "-", "-"]);
    assert_eq!(split_string("".to_string(), &[' ']), Vec::<String>::new());
    assert_eq!(split_string("abc".to_string(), &[]), vec!["abc"]);
}

#[test]
fn replace_substring_by_byte_offsets() {
    assert_eq!(replace_substring("Hello, World!", 7, 12, "Rust"), "Hello, Rust!");
    assert_eq!(replace_substring("abc", 0, 0, "x"), "xabc");
    assert_eq!(replace_substring("abc", 3, 3, "x"), "abcx");
    assert_eq!(replace_substring("abc", 0, 3, ""), "");
    assert_eq!(replace_substring("a£c", 1, 3, "€"), "a€c");
}

#[test]
fn meta_trims_key_and_value() {
    let meta = Meta::new("  key ", "\t value with space \n");
    assert_eq!(meta.key, "key");
    assert_eq!(meta.value, "value with space");
    let empty = Meta::new(" ", "");
    assert_eq!((empty.key.as_str(), empty.value.as_str()), ("", ""));
}

#[test]
fn meta_section_forms() {
    let parse = section;
    let one = vec![Meta::new("a", "1")];
    assert_eq!(parse("<?meta\na = 1\n?>\nrest").unwrap().1, one);
    assert_eq!(parse("<?\na = 1\n?>\nrest").unwrap().1, one);
    assert_eq!(parse("  \n<meta>a = 1\n</meta>").unwrap().1, one);
    assert_eq!(parse(":meta a=1\n:meta tail").unwrap().0.fragment(), "tail");
    assert_eq!(parse("<?meta\na = 1\n</meta>").unwrap_err(), SyntaxError::MalformedMeta);
    assert_eq!(parse(":meta\n:meta").unwrap_err(), SyntaxError::MalformedMeta);
    assert_eq!(parse(":meta\n# only a comment\n:meta").unwrap_err(), SyntaxError::MalformedMeta);
    assert_eq!(parse(":meta\na = 1\n").unwrap_err(), SyntaxError::MalformedMeta);
    assert_eq!(parse("\n <meta>\na = 1\nnot an entry\n</meta>").unwrap_err(), SyntaxError::MalformedMeta);
    assert_eq!(parse("# T").unwrap_err(), SyntaxError::NoMatch);
    assert_eq!(parse("").unwrap_err(), SyntaxError::NoMatch);
    assert_eq!(parse("text :meta\na = 1\n:meta").unwrap_err(), SyntaxError::NoMatch);
    let (rest, metas) = parse(":meta\n£k = v w \n// c\n\n  x-y=2\n:meta\n# T").unwrap();
    assert_eq!(metas, vec![Meta::new("k", "v w"), Meta::new("x-y", "2")]);
    assert_eq!(rest.fragment(), "# T");
    assert_eq!(rest.location_line(), 7);
    assert_eq!(rest.location_offset(), 37);
}

#[test]
fn meta_lines_and_keys() {
    let (rest, line) = parse_meta_line(Span::new("  # note\n\n next")).unwrap();
    assert_eq!(line, None);
    assert_eq!(rest.fragment(), "next");
    let (rest, line) = parse_meta_line(Span::new("k = v\nnext")).unwrap();
    assert_eq!(line, Some(Meta::new("k", "v")));
    assert_eq!(rest.fragment(), "next");
    assert_eq!(parse_meta_line(Span::new(":meta")).unwrap_err(), SyntaxError::NoMatch);
    let (rest, key) = parse_meta_key(Span::new("£key = 1")).unwrap();
    assert_eq!(key.fragment(), "key");
    assert_eq!(key.location_offset(), 2);
    assert_eq!(rest.fragment(), " = 1");
    assert_eq!(parse_meta_key(Span::new("1key")).unwrap_err(), SyntaxError::NoMatch);
    let (rest, value) = parse_meta_value(Span::new("a b\nc")).unwrap();
    assert_eq!((value.fragment(), rest.fragment()), ("a b", "c"));
    let (rest, name) = parse_variable_name(Span::new("a-b_c9.d")).unwrap();
    assert_eq!((name.fragment(), rest.fragment()), ("a-b_c9", ".d"));
    assert_eq!(parse_variable_name(Span::new("é")).unwrap_err(), SyntaxError::NoMatch);
}

#[test]
fn title_forms() {
    let (rest, title) = parse_title(Span::new("\n\n#   Spaced\r\nx")).unwrap();
    assert_eq!((title.fragment(), rest.fragment()), ("Spaced", "\r\nx"));
    assert_eq!(title.location_line(), 3);
    assert_eq!(parse_title(Span::new("<h1>open")).unwrap_err(), SyntaxError::NoMatch);
    assert_eq!(parse_title(Span::new("text # T")).unwrap_err(), SyntaxError::NoMatch);
    let (rest, title) = parse_title(Span::new("<h1></h1>")).unwrap();
    assert_eq!((title.fragment(), rest.fragment()), ("", ""));
}

#[test]
fn variables_are_merged_last_wins() {
    let metas = vec![Meta::new("a", "1"), Meta::new("title", "T"), Meta::new("a", "2")];
    let variables = create_variables(Span::new("  body text \n"), metas).unwrap();
    assert_eq!(variables.get("a"), Some(&"2".to_string()));
    assert_eq!(variables.get("title"), Some(&"T".to_string()));
    assert_eq!(variables.get("content"), Some(&"body text".to_string()));
    assert_eq!(variables.get("b"), None);
    assert!(variables.contains_key("a") && !variables.contains_key("A"));
    let metas = vec![Meta::new("content", "given")];
    let variables = create_variables(Span::new("# Head\nbody"), metas).unwrap();
    assert_eq!(variables.get("title"), Some(&"Head".to_string()));
    assert_eq!(variables.get("content"), Some(&"given".to_string()));
    let variables = create_variables(Span::new("\n# Head\nbody\n"), vec![]).unwrap();
    assert_eq!(variables.get("content"), Some(&"# Head\nbody".to_string()));
}

#[test]
fn markers_and_selections() {
    assert_eq!(Marker::default(), Marker { line: 1, offset: 1 });
    let text = Span::new("ab\n£d");
    assert_eq!(Marker::new(text), Marker { line: 1, offset: 0 });
    let (rest, line) = parse_meta_value(text).unwrap();
    assert_eq!(Marker::new(rest), Marker { line: 2, offset: 3 });
    let selection = Selection::from(line, rest);
    assert_eq!(
        selection,
        Selection { start: Marker { line: 1, offset: 0 }, end: Marker { line: 2, offset: 6 } }
    );
    assert!(text.is_wf());
    assert_eq!(Placeholder::default().filters, vec![]);
}

#[test]
fn allow_list_reads_its_rules() {
    let names = vec![
        " Unused ".to_string(),
        "nothing".to_string(),
        "unused-variables".to_string(),
        "UNUSED_VARIABLES".to_string(),
        "unused variables".to_string(),
    ];
    assert_eq!(
        get_allow_list(names),
        vec![AllowList::Unused, AllowList::UnusedVariables, AllowList::UnusedVariables]
    );
    assert_eq!(get_allow_list(vec![]), vec![]);
}

#[test]
fn unused_variables_are_listed_in_order() {
    let variables = table(&[("a", "1"), ("title", "T"), ("b", "2"), ("content", "C")]);
    let placeholders = parse_placeholder_locations(Span::new("{{ £title }} {{ £b }} {{ £b }}")).unwrap();
    assert_eq!(variables.names(), vec!["a", "title", "b", "content"]);
    assert_eq!(unused_variables(&variables.names(), &placeholders), vec!["a", "content"]);
    assert_eq!(unused_variables(&variables.names(), &vec![]), vec!["a", "title", "b", "content"]);
    assert_eq!(unused_variables(&vec![], &placeholders), Vec::<String>::new());
}

#[test]
fn headings_get_a_line_of_their_own() {
    let html = "<h1>a</h1><h2>b</h2><h3>c</h3><h4>d</h4><h5>e</h5><h6>f</h6><h2>g</h2>";
    assert_eq!(
        separate_headings(html),
        "<h1>a</h1>\n<h2>b</h2>\n<h3>c</h3>\n<h4>d</h4>\n<h5>e</h5><h6>f</h6>\n<h2>g</h2>"
    );
    assert_eq!(separate_headings("plain"), "plain");
}

#[test]
fn document_is_rendered_whole() {
    let template = "<title>{{ £title | uppercase }}</title>\n<p>By {{ £author }}</p>\n<main>{{ £content }}</main>\n";
    let markdown = "<meta>\nauthor = John Doe\n</meta>\n# Markdown Title\nThis is the first paragraph.";
    assert_eq!(
        render_document(template, markdown).unwrap(),
        "<title>MARKDOWN TITLE</title>\n<p>By John Doe</p>\n<main><h1>Markdown Title</h1>\n<p>This is the first paragraph.</p></main>\n"
    );
    assert_eq!(render_document(template, markdown), render(template, markdown));
    assert_eq!(
        render_document("{{ £title }}", ":meta\ntitle = Meta title\n:meta\n# MD Title\nBody").unwrap(),
        "Meta title"
    );
    assert_eq!(
        render_document("{{ £missing }}", "# T").unwrap_err(),
        RenderError::MissingVariable { name: "missing".to_string() }
    );
    assert_eq!(render_document("{{ £title }}", "").unwrap_err(), RenderError::MissingTitle);
    assert_eq!(render_document("{{ £a | b }}", "").unwrap_err(), RenderError::UnknownFilter);
    assert_eq!(render_document("plain", "# T").unwrap(), "plain");
    assert_eq!(
        render_document("{{ £title }}", ":meta\ntitle = T\n</meta>\n# Heading").unwrap_err(),
        RenderError::MalformedMetadata
    );
    assert_eq!(
        render("{{ £title }}", ":meta\ntitle = T\n</meta>\n# Heading").unwrap_err(),
        RenderError::MalformedMetadata
    );
}

#[test]
fn text_case_parses_from_a_name() {
    assert_eq!("lower".parse::<TextCase>(), Ok(TextCase::Lower));
    assert_eq!("snake_case".parse::<TextCase>(), Ok(TextCase::Snake));
    assert_eq!(TextCase::parse("camelCase"), Ok(TextCase::Camel));
    assert_eq!(
        "sideways".parse::<TextCase>(),
        Err("Unable to parse TextCase from 'sideways'".to_string())
    );
}

#[test]
fn patches_are_applied_from_the_end() {
    let patch = |start: usize, end: usize, replacement: &str| Patch {
        name: format!("{start}"),
        selection: Selection {
            start: Marker { line: 1, offset: start },
            end: Marker { line: 1, offset: end },
        },
        replacement: replacement.to_string(),
    };
    let text = "0123456789";
    let patches = vec![patch(1, 3, "one-two"), patch(8, 10, ""), patch(5, 5, "|")];
    assert_eq!(splice(text, &patches).unwrap(), "0one-two34|567");
    let shuffled = vec![patch(5, 5, "|"), patch(1, 3, "one-two"), patch(8, 10, "")];
    assert_eq!(splice(text, &shuffled).unwrap(), "0one-two34|567");
    assert_eq!(splice(text, &vec![]).unwrap(), text);
    assert_eq!(
        splice(text, &vec![patch(2, 11, "x")]).unwrap_err(),
        RenderError::InvalidSelection { name: "2".to_string() }
    );
    assert_eq!(
        splice("£", &vec![patch(1, 2, "x")]).unwrap_err(),
        RenderError::InvalidSelection { name: "1".to_string() }
    );
}

#[test]
fn patches_at_one_offset_keep_their_order() {
    let patch = |name: &str, replacement: &str| Patch {
        name: name.to_string(),
        selection: Selection {
            start: Marker { line: 1, offset: 1 },
            end: Marker { line: 1, offset: 1 },
        },
        replacement: replacement.to_string(),
    };
    assert_eq!(splice("ab", &vec![patch("x", "X"), patch("y", "Y")]).unwrap(), "aYXb");
    assert_eq!(splice("ab", &vec![patch("y", "Y"), patch("x", "X")]).unwrap(), "aXYb");
}
