use flight_data_reader::report::latex::LatexElement;

#[test]
fn test_latex_empty_directive_writing() {
    let mut result = String::new();

    let directive = LatexElement::directive("test", vec![], vec![]);

    directive.write(&mut result);

    assert_eq!(result.as_bytes(), br"\test ");
}

#[test]
fn test_latex_argument_directive_writing() {
    let mut result = String::new();

    let directive = LatexElement::directive("test", vec![], vec!["apple".to_string()]);

    directive.write(&mut result);

    assert_eq!(result.as_bytes(), br"\test{apple} ");
}

#[test]
fn test_latex_options_directive_writing() {
    let mut result = String::new();

    let directive = LatexElement::directive("test", vec!["apple".to_string()], vec![]);

    directive.write(&mut result);

    assert_eq!(result.as_bytes(), br"\test[apple] ");
}

#[test]
fn test_latex_args_and_opts_directive_writing() {
    let mut result = String::new();

    let directive = LatexElement::directive(
        "test",
        vec!["banana".to_string(), "pair".to_string()],
        vec!["apple".to_string(), "cucumber".to_string()],
    );

    directive.write(&mut result);

    assert_eq!(result.as_bytes(), br"\test[banana][pair]{apple}{cucumber} ");
}

#[test]
fn test_latex_environment() {
    let mut result = String::new();
    let env = LatexElement::environment("center", vec![LatexElement::raw("some text")]);
    env.write(&mut result);
    assert_eq!(result.as_bytes(), br"\begin{center}  some text \end{center} ");
}

#[test]
fn latex_writing_appends() {
    let mut result = "before".to_string();
    LatexElement::raw("x").write(&mut result);
    LatexElement::heading("section", "Title".to_string()).write(&mut result);
    assert_eq!(result, "before x \\section{Title} ");
}

#[test]
fn latex_environments_nest() {
    let inner = LatexElement::environment("b", vec![LatexElement::directive("c", vec![], vec![])]);
    let outer = LatexElement::environment("a", vec![inner, LatexElement::raw("d")]);
    let mut result = String::new();
    outer.write(&mut result);
    assert_eq!(result, "\\begin{a} \\begin{b} \\c \\end{b}  d \\end{a} ");
}
