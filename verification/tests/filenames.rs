use biome_r_parser::filenaming::{
    allowed_variants, breaks_camel_when_strict, check_filename, diagnostic, enabled,
    is_allowed_extension_case, is_allowed_name, is_allowed_name_case, is_default,
    is_default_filename_cases, is_enabled, Case, Cases, FileNamingConventionState, FilenameCase,
    FilenameCases, FilenameDiagnostic, FilenamingConventionOptions,
};

fn check(file_name: &str) -> Option<FileNamingConventionState> {
    check_filename(file_name, &FilenamingConventionOptions::default(), &Vec::new())
}

fn check_with(
    file_name: &str,
    cases: &[FilenameCase],
    exports: &[&str],
) -> Option<FileNamingConventionState> {
    let options = FilenamingConventionOptions {
        strict_case: true,
        require_ascii: false,
        filename_cases: FilenameCases::from_iter(cases),
    };
    let exports: Vec<String> = exports.iter().map(|name| name.to_string()).collect();
    check_filename(file_name, &options, &exports)
}

#[test]
fn sets_of_cases() {
    assert!(Cases::empty().is_empty());
    let camel_or_kebab = Cases::empty().with(Case::Camel).with(Case::Kebab);
    assert!(!camel_or_kebab.is_empty());
    assert!(camel_or_kebab.contains(Case::Camel));
    assert!(camel_or_kebab.contains(Case::Kebab));
    assert!(camel_or_kebab.contains(Case::Lower));
    assert!(camel_or_kebab.contains(Case::Number));
    assert!(!camel_or_kebab.contains(Case::Snake));
    assert!(!camel_or_kebab.contains(Case::Pascal));
    assert!(!camel_or_kebab.contains(Case::Unknown));
    assert!(Cases::empty().with(Case::Unknown).contains(Case::Constant));
    assert_eq!(Case::Number.bits(), 1);
    assert_eq!(Case::Unknown.bits(), 0x7FF);
}

#[test]
fn file_name_cases_from_their_names() {
    assert_eq!(FilenameCase::from_str("camelCase"), Ok(FilenameCase::Camel));
    assert_eq!(FilenameCase::from_str("export"), Ok(FilenameCase::Export));
    assert_eq!(FilenameCase::from_str("kebab-case"), Ok(FilenameCase::Kebab));
    assert_eq!(FilenameCase::from_str("PascalCase"), Ok(FilenameCase::Pascal));
    assert_eq!(FilenameCase::from_str("snake_case"), Ok(FilenameCase::Snake));
    assert_eq!(
        FilenameCase::from_str("camelcase"),
        Err("Value not supported for enum member case")
    );
    assert_eq!(
        allowed_variants(),
        ["camelCase", "export", "kebab-case", "PascalCase", "snake_case"]
    );
    for name in allowed_variants() {
        assert!(FilenameCase::from_str(name).is_ok());
    }
}

#[test]
fn file_name_cases_as_string_cases() {
    assert_eq!(FilenameCase::Camel.try_into_case(), Ok(Case::Camel));
    assert_eq!(FilenameCase::Kebab.try_into_case(), Ok(Case::Kebab));
    assert_eq!(FilenameCase::Pascal.try_into_case(), Ok(Case::Pascal));
    assert_eq!(FilenameCase::Snake.try_into_case(), Ok(Case::Snake));
    assert_eq!(
        FilenameCase::Export.try_into_case(),
        Err("`export` is not a valid case")
    );
}

#[test]
fn default_options() {
    let options = FilenamingConventionOptions::default();
    assert!(options.strict_case);
    assert!(!options.require_ascii);
    assert_eq!(options.filename_cases, FilenameCases::default());
    assert_eq!(options.filename_cases.len(), 4);
    assert!(options.filename_cases.contains(&FilenameCase::Camel));
    assert!(options.filename_cases.contains(&FilenameCase::Export));
    assert!(options.filename_cases.contains(&FilenameCase::Kebab));
    assert!(options.filename_cases.contains(&FilenameCase::Snake));
    assert!(!options.filename_cases.contains(&FilenameCase::Pascal));
    assert!(is_default_filename_cases(&options.filename_cases));
    assert!(!is_default_filename_cases(&FilenameCases::from_iter(&[
        FilenameCase::Camel
    ])));
    assert!(!is_default_filename_cases(
        &FilenameCases::default().insert(FilenameCase::Pascal)
    ));
    assert_eq!(FilenameCases::from_array(&[]), None);
    assert_eq!(
        FilenameCases::from_array(&[FilenameCase::Kebab, FilenameCase::Kebab]),
        Some(FilenameCases::from_iter(&[FilenameCase::Kebab]))
    );
    assert!(enabled());
    assert!(is_enabled(&true));
    assert!(!is_enabled(&false));
    assert!(is_default(&false));
    assert!(!is_default(&true));
    let cases = options.filename_cases.cases();
    assert!(cases.contains(Case::Camel));
    assert!(cases.contains(Case::Kebab));
    assert!(cases.contains(Case::Snake));
    assert!(!cases.contains(Case::Pascal));
    assert!(FilenameCases::from_iter(&[FilenameCase::Export])
        .cases()
        .is_empty());
}

#[test]
fn names_in_an_allowed_case_pass() {
    assert_eq!(check("my-filename.test.js"), None);
    assert_eq!(check("myFilename.js"), None);
    assert_eq!(check("my_filename.js"), None);
    assert_eq!(check("filename"), None);
    assert_eq!(check(".filename.js"), None);
    assert_eq!(check("+filename.js"), None);
    assert_eq!(check("__filename__.js"), None);
    assert_eq!(check(".__filename__.js"), None);
    assert_eq!(check("안녕하세요.js"), None);
    assert_eq!(check(""), None);
}

#[test]
fn names_in_no_allowed_case_are_reported() {
    assert_eq!(check("MyFilename.js"), Some(FileNamingConventionState::Filename));
    assert_eq!(check("agentID.js"), Some(FileNamingConventionState::Filename));
    assert_eq!(check("my filename.js"), Some(FileNamingConventionState::Filename));
    assert_eq!(check(".js"), None);
    assert_eq!(check("."), Some(FileNamingConventionState::Filename));
    assert_eq!(check("+"), Some(FileNamingConventionState::Filename));
    assert_eq!(check("..js"), Some(FileNamingConventionState::Filename));
    assert_eq!(
        check_with("my-filename.js", &[FilenameCase::Camel], &[]),
        Some(FileNamingConventionState::Filename)
    );
    assert_eq!(
        check_with("MyFilename.js", &[FilenameCase::Pascal], &[]),
        None
    );
}

#[test]
fn relaxed_case_allows_consecutive_uppercase() {
    let mut options = FilenamingConventionOptions::default();
    options.strict_case = false;
    assert_eq!(check_filename("agentID.js", &options, &Vec::new()), None);
}

#[test]
fn extensions_must_be_in_an_allowed_case() {
    assert_eq!(check("filename.JS"), Some(FileNamingConventionState::Extension));
    assert_eq!(check("filename.test.JS"), Some(FileNamingConventionState::Extension));
    assert_eq!(check("filename."), Some(FileNamingConventionState::Extension));
    assert_eq!(check("filename.d.ts"), None);
    assert_eq!(check("filename.testCase.js"), None);
    assert_eq!(
        check_with("FileName.js", &[FilenameCase::Pascal], &[]),
        None
    );
    assert_eq!(
        check_with("FileName.testCase.js", &[FilenameCase::Pascal], &[]),
        Some(FileNamingConventionState::Extension)
    );
    // The extension is checked before the name.
    assert_eq!(check("MyFilename.JS"), Some(FileNamingConventionState::Extension));
}

#[test]
fn ascii_can_be_required() {
    let mut options = FilenamingConventionOptions::default();
    options.require_ascii = true;
    assert_eq!(
        check_filename("café.js", &options, &Vec::new()),
        Some(FileNamingConventionState::Ascii)
    );
    assert_eq!(
        check_filename("안녕하세요.js", &options, &Vec::new()),
        Some(FileNamingConventionState::Ascii)
    );
    assert_eq!(check_filename("cafe.js", &options, &Vec::new()), None);
    assert_eq!(check("café.js"), None);
}

#[test]
fn dynamic_routes() {
    assert_eq!(check("(slug).js"), None);
    assert_eq!(check("[slug].js"), None);
    assert_eq!(check("[[slug]].js"), None);
    assert_eq!(check("[...slug].js"), None);
    assert_eq!(check("[[...slug]].js"), None);
    assert_eq!(check("[my-slug_1].test.js"), None);
    assert_eq!(check("[slug]"), None);
    assert_eq!(check("[slug.js"), Some(FileNamingConventionState::Filename));
    assert_eq!(check("[[slug].js"), Some(FileNamingConventionState::Filename));
    assert_eq!(check("(slug].js"), Some(FileNamingConventionState::Filename));
    assert_eq!(check("(...slug).js"), Some(FileNamingConventionState::Filename));
    assert_eq!(check("[sl ug].js"), Some(FileNamingConventionState::Filename));
    assert_eq!(check("["), Some(FileNamingConventionState::Filename));
    assert_eq!(check("[]"), None);
    assert_eq!(check("[slug].JS"), Some(FileNamingConventionState::Extension));
}

#[test]
fn name_of_an_export_passes() {
    assert_eq!(
        check_with("MyComponent.js", &[FilenameCase::Export], &["MyComponent"]),
        None
    );
    assert_eq!(
        check_with(
            "MyComponent.js",
            &[FilenameCase::Camel, FilenameCase::Export],
            &["other", "MyComponent"]
        ),
        None
    );
    assert_eq!(
        check_with("MyComponent.js", &[FilenameCase::Export], &["myComponent"]),
        Some(FileNamingConventionState::Filename)
    );
    assert_eq!(
        check_with("MyComponent.js", &[FilenameCase::Export], &[]),
        Some(FileNamingConventionState::Filename)
    );
    // The name is compared as it stands, underscores and all.
    assert_eq!(
        check_with("_MyComponent.js", &[FilenameCase::Export], &["MyComponent"]),
        Some(FileNamingConventionState::Filename)
    );
    assert_eq!(
        check_with("MyComponent.js", &[FilenameCase::Camel], &["MyComponent"]),
        Some(FileNamingConventionState::Filename)
    );
}

#[test]
fn proposed_names_are_checked() {
    let allowed = FilenameCases::default().cases();
    assert!(is_allowed_name("aHttpServer", allowed, true));
    assert!(!is_allowed_name("aHTTPServer", allowed, true));
    assert!(is_allowed_name("aHTTPServer", allowed, false));
    assert!(is_allowed_name("http-server", allowed, true));
    assert!(is_allowed_name("http_server", allowed, true));
    assert!(is_allowed_name("httpserver", allowed, true));
    assert!(is_allowed_name("100", allowed, true));
    assert!(!is_allowed_name("HttpServer", allowed, true));
    assert!(!is_allowed_name("HTTP_SERVER", allowed, true));
    assert!(!is_allowed_name("", allowed, true));
    assert!(!is_allowed_name("안녕하세요", allowed, true));
    assert!(is_allowed_name("안녕하세요", allowed.with(Case::Uni), true));
    assert!(is_allowed_name("HttpServer", Cases::empty().with(Case::Pascal), true));
    assert!(is_allowed_name("T1", Cases::empty().with(Case::Pascal), true));
    assert!(!is_allowed_name("HTTPSERVER", Cases::empty().with(Case::Pascal), true));
    assert!(is_allowed_name("HTTPSERVER", Cases::empty().with(Case::Constant), true));
}

#[test]
fn diagnostics_of_reported_names() {
    let options = FilenamingConventionOptions::default();
    let allowed = options.filename_cases.cases();
    assert_eq!(
        diagnostic("café.js", &options, FileNamingConventionState::Ascii),
        Some(FilenameDiagnostic::Ascii)
    );
    assert_eq!(
        diagnostic("a.JS", &options, FileNamingConventionState::Extension),
        Some(FilenameDiagnostic::Extension {
            allowed: allowed.with(Case::Lower)
        })
    );
    assert_eq!(
        diagnostic("MyFile.test.js", &options, FileNamingConventionState::Filename),
        Some(FilenameDiagnostic::Filename {
            start: 0,
            end: 6,
            was_trimmed: false,
            allowed,
            export: true
        })
    );
    assert_eq!(
        diagnostic("__MyFile_.js", &options, FileNamingConventionState::Filename),
        Some(FilenameDiagnostic::Filename {
            start: 2,
            end: 8,
            was_trimmed: true,
            allowed,
            export: true
        })
    );
    assert_eq!(
        diagnostic("+MyFile.js", &options, FileNamingConventionState::Filename),
        Some(FilenameDiagnostic::Filename {
            start: 1,
            end: 7,
            was_trimmed: false,
            allowed,
            export: true
        })
    );
    assert_eq!(
        diagnostic(".MyFile.js", &options, FileNamingConventionState::Filename),
        Some(FilenameDiagnostic::Filename {
            start: 1,
            end: 7,
            was_trimmed: false,
            allowed,
            export: true
        })
    );
    assert_eq!(
        diagnostic("agentID.js", &options, FileNamingConventionState::Filename),
        Some(FilenameDiagnostic::StrictCamel {
            start: 0,
            end: 7,
            was_trimmed: false
        })
    );
    assert_eq!(
        diagnostic("_agentID.js", &options, FileNamingConventionState::Filename),
        Some(FilenameDiagnostic::StrictCamel {
            start: 1,
            end: 8,
            was_trimmed: true
        })
    );
    assert_eq!(
        diagnostic("", &options, FileNamingConventionState::Filename),
        None
    );
    assert_eq!(
        diagnostic("___", &options, FileNamingConventionState::Filename),
        Some(FilenameDiagnostic::Filename {
            start: 3,
            end: 3,
            was_trimmed: true,
            allowed,
            export: true
        })
    );
    let mut relaxed = options;
    relaxed.strict_case = false;
    relaxed.filename_cases = FilenameCases::from_iter(&[FilenameCase::Kebab]);
    assert_eq!(
        diagnostic("agentID.js", &relaxed, FileNamingConventionState::Filename),
        Some(FilenameDiagnostic::Filename {
            start: 0,
            end: 7,
            was_trimmed: false,
            allowed: Cases::empty().with(Case::Kebab),
            export: false
        })
    );
}

#[test]
fn identified_cases_are_judged() {
    let default = FilenameCases::default();
    let pascal = FilenameCases::from_iter(&[FilenameCase::Pascal]);
    let export = FilenameCases::from_iter(&[FilenameCase::Export]);

    assert!(is_allowed_extension_case(Case::Lower, &default));
    assert!(is_allowed_extension_case(Case::Camel, &default));
    assert!(is_allowed_extension_case(Case::Number, &default));
    assert!(!is_allowed_extension_case(Case::Upper, &default));
    assert!(!is_allowed_extension_case(Case::Pascal, &default));
    assert!(!is_allowed_extension_case(Case::Uni, &default));
    assert!(!is_allowed_extension_case(Case::Unknown, &default));
    assert!(is_allowed_extension_case(Case::Pascal, &pascal));
    assert!(is_allowed_extension_case(Case::Lower, &pascal));
    assert!(!is_allowed_extension_case(Case::Camel, &pascal));
    assert!(is_allowed_extension_case(Case::Lower, &export));
    assert!(!is_allowed_extension_case(Case::Kebab, &export));

    assert!(is_allowed_name_case(Case::Camel, &default));
    assert!(is_allowed_name_case(Case::Kebab, &default));
    assert!(is_allowed_name_case(Case::Snake, &default));
    assert!(is_allowed_name_case(Case::Lower, &default));
    assert!(is_allowed_name_case(Case::Uni, &default));
    assert!(!is_allowed_name_case(Case::Pascal, &default));
    assert!(!is_allowed_name_case(Case::Constant, &default));
    assert!(!is_allowed_name_case(Case::Unknown, &default));
    assert!(is_allowed_name_case(Case::Pascal, &pascal));
    assert!(is_allowed_name_case(Case::NumberableCapital, &pascal));
    assert!(is_allowed_name_case(Case::Uni, &pascal));
    assert!(!is_allowed_name_case(Case::Lower, &pascal));
    // Where no case of a string is allowed, none passes, not even a name
    // without case.
    assert!(!is_allowed_name_case(Case::Uni, &export));
    assert!(!is_allowed_name_case(Case::Number, &export));

    assert!(breaks_camel_when_strict(Case::Camel, Case::Unknown));
    assert!(!breaks_camel_when_strict(Case::Camel, Case::Camel));
    assert!(!breaks_camel_when_strict(Case::Pascal, Case::Unknown));
    assert!(!breaks_camel_when_strict(Case::Unknown, Case::Unknown));
}
