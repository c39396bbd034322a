use config_patch::patcher::{patch, PatchError, PatchRule};

const IMPORT: &str = "import tailwindcss from '@tailwindcss/vite';";

fn tailwind_rule() -> PatchRule {
    PatchRule {
        import_statement: IMPORT.as_bytes().to_vec(),
        marker: b"@tailwindcss/vite".to_vec(),
        array_key_name: b"plugins".to_vec(),
        injected_expression: b"tailwindcss()".to_vec(),
    }
}

fn apply(content: Option<&str>, rule: &PatchRule) -> Result<String, PatchError> {
    patch(content.map(str::as_bytes), rule).map(|v| String::from_utf8(v).unwrap())
}

#[test]
fn empty_array_gets_injected_expression() {
    let out = apply(Some("export default { plugins: [] }"), &tailwind_rule()).unwrap();
    assert_eq!(
        out,
        "import tailwindcss from '@tailwindcss/vite';\nexport default { plugins: [tailwindcss()\n  ] }"
    );
}

#[test]
fn reapplying_rule_is_identity() {
    let rule = tailwind_rule();
    let once = apply(Some("export default { plugins: [] }"), &rule).unwrap();
    let twice = apply(Some(&once), &rule).unwrap();
    assert_eq!(once, twice);
}

#[test]
fn existing_element_preserved_behind_injected() {
    let out = apply(Some("export default { plugins: [reactPlugin()] }"), &tailwind_rule()).unwrap();
    assert_eq!(
        out,
        "import tailwindcss from '@tailwindcss/vite';\nexport default { plugins: [tailwindcss(),\n    reactPlugin()\n  ] }"
    );
}

#[test]
fn injected_expression_comes_before_existing_elements() {
    let out = apply(Some("export default { plugins: [reactPlugin()] }"), &tailwind_rule()).unwrap();
    let inj = out.find("tailwindcss()").unwrap();
    let old = out.find("reactPlugin()").unwrap();
    assert!(inj < old);
}

#[test]
fn reapplying_on_nonempty_array_is_identity() {
    let rule = tailwind_rule();
    let once = apply(Some("export default { plugins: [reactPlugin()] }"), &rule).unwrap();
    let twice = apply(Some(&once), &rule).unwrap();
    assert_eq!(once, twice);
}

#[test]
fn absent_file_reports_no_match() {
    assert_eq!(apply(None, &tailwind_rule()), Err(PatchError::NoMatchFound));
}

#[test]
fn empty_content_reports_no_match() {
    assert_eq!(apply(Some(""), &tailwind_rule()), Err(PatchError::NoMatchFound));
}

#[test]
fn key_without_array_literal_reports_no_match() {
    assert_eq!(
        apply(Some("export default { plugins: null }"), &tailwind_rule()),
        Err(PatchError::NoMatchFound)
    );
}

#[test]
fn missing_key_reports_no_match() {
    assert_eq!(
        apply(Some("export default { extensions: [] }"), &tailwind_rule()),
        Err(PatchError::NoMatchFound)
    );
}

#[test]
fn unclosed_array_reports_no_match() {
    assert_eq!(
        apply(Some("export default { plugins: [react("), &tailwind_rule()),
        Err(PatchError::NoMatchFound)
    );
}

#[test]
fn empty_import_statement_is_malformed() {
    let mut rule = tailwind_rule();
    rule.import_statement = Vec::new();
    assert_eq!(apply(Some("export default { plugins: [] }"), &rule), Err(PatchError::MalformedRule));
}

#[test]
fn empty_array_key_name_is_malformed() {
    let mut rule = tailwind_rule();
    rule.array_key_name = Vec::new();
    assert_eq!(apply(Some("export default { plugins: [] }"), &rule), Err(PatchError::MalformedRule));
}

#[test]
fn empty_injected_expression_is_malformed() {
    let mut rule = tailwind_rule();
    rule.injected_expression = Vec::new();
    assert_eq!(apply(Some("export default { plugins: [] }"), &rule), Err(PatchError::MalformedRule));
}

#[test]
fn empty_marker_is_malformed() {
    let mut rule = tailwind_rule();
    rule.marker = Vec::new();
    assert_eq!(apply(Some("export default { plugins: [] }"), &rule), Err(PatchError::MalformedRule));
}

#[test]
fn marker_outside_import_statement_is_malformed() {
    let mut rule = tailwind_rule();
    rule.marker = b"@tailwindcss/postcss".to_vec();
    assert_eq!(apply(Some("export default { plugins: [] }"), &rule), Err(PatchError::MalformedRule));
}

#[test]
fn other_spelling_of_the_import_is_left_alone() {
    // the marker, not the exact import line, decides that a file is patched
    let already = "import tw from \"@tailwindcss/vite\"\nexport default { plugins: [tw()] }";
    assert_eq!(apply(Some(already), &tailwind_rule()).unwrap(), already);
}

#[test]
fn content_with_marker_is_returned_unchanged() {
    // the marker wins even where the array would otherwise match again
    let already = "import tailwindcss from '@tailwindcss/vite';\nexport default { plugins: [tailwindcss()\n  ] }";
    assert_eq!(apply(Some(already), &tailwind_rule()).unwrap(), already);
}

#[test]
fn content_with_marker_but_no_array_is_returned_unchanged() {
    let already = "import tailwindcss from '@tailwindcss/vite';\nexport default {}";
    assert_eq!(apply(Some(already), &tailwind_rule()).unwrap(), already);
}

#[test]
fn whitespace_between_colon_and_bracket_is_kept() {
    let out = apply(Some("plugins:\n  [ one ]"), &tailwind_rule()).unwrap();
    assert_eq!(
        out,
        "import tailwindcss from '@tailwindcss/vite';\nplugins:\n  [tailwindcss(),\n    one\n  ]"
    );
}

#[test]
fn text_around_the_array_is_preserved() {
    let content = "// build config\nexport default {\n  base: './',\n  plugins: [alpha(), beta()],\n  server: { port: 3000 },\n}\n";
    let out = apply(Some(content), &tailwind_rule()).unwrap();
    assert!(out.starts_with(
        "import tailwindcss from '@tailwindcss/vite';\n// build config\nexport default {\n  base: './',\n  plugins: ["
    ));
    assert!(out.ends_with("],\n  server: { port: 3000 },\n}\n"));
    assert!(out.contains("alpha(), beta()"));
}

#[test]
fn only_the_first_array_is_rewritten() {
    let out = apply(Some("a: { plugins: [x] }, b: { plugins: [y] }"), &tailwind_rule()).unwrap();
    assert_eq!(
        out,
        "import tailwindcss from '@tailwindcss/vite';\na: { plugins: [tailwindcss(),\n    x\n  ] }, b: { plugins: [y] }"
    );
}

#[test]
fn nested_bracket_cuts_the_match_short() {
    // the body is taken up to the nearest `]`, a documented textual limitation
    let out = apply(Some("plugins: [a(), [1, 2]]"), &tailwind_rule()).unwrap();
    assert_eq!(
        out,
        "import tailwindcss from '@tailwindcss/vite';\nplugins: [tailwindcss(),\n    a(), [1, 2\n  ]]"
    );
}

#[test]
fn whitespace_only_body_counts_as_empty() {
    let out = apply(Some("export default { plugins: [  \n  ] }"), &tailwind_rule()).unwrap();
    assert_eq!(
        out,
        "import tailwindcss from '@tailwindcss/vite';\nexport default { plugins: [tailwindcss()\n  ] }"
    );
}

#[test]
fn another_rule_shape_works() {
    let rule = PatchRule {
        import_statement: b"import legacy from '@vitejs/plugin-legacy';".to_vec(),
        marker: b"@vitejs/plugin-legacy".to_vec(),
        array_key_name: b"extensions".to_vec(),
        injected_expression: b"legacy({ targets: ['defaults'] })".to_vec(),
    };
    let out = apply(Some("module.exports = { extensions: [] };"), &rule).unwrap();
    assert_eq!(
        out,
        "import legacy from '@vitejs/plugin-legacy';\nmodule.exports = { extensions: [legacy({ targets: ['defaults'] })\n  ] };"
    );
    let twice = apply(Some(&out), &rule).unwrap();
    assert_eq!(out, twice);
}
