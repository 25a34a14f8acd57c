use biome_r_parser::filenaming::{Case, Cases, FilenameCase, FilenameCases};
use biome_r_parser::parse::RParse;
use biome_unicode_table::{lookup_byte, Dispatch};

const PAIRS: [(Case, biome_string_case::Case); 11] = [
    (Case::Number, biome_string_case::Case::Number),
    (Case::Uni, biome_string_case::Case::Uni),
    (
        Case::NumberableCapital,
        biome_string_case::Case::NumberableCapital,
    ),
    (Case::Upper, biome_string_case::Case::Upper),
    (Case::Constant, biome_string_case::Case::Constant),
    (Case::Pascal, biome_string_case::Case::Pascal),
    (Case::Lower, biome_string_case::Case::Lower),
    (Case::Snake, biome_string_case::Case::Snake),
    (Case::Kebab, biome_string_case::Case::Kebab),
    (Case::Camel, biome_string_case::Case::Camel),
    (Case::Unknown, biome_string_case::Case::Unknown),
];

#[test]
fn whitespace_agrees_with_the_byte_table() {
    for byte in 0..=255u8 {
        let in_table = matches!(lookup_byte(byte), Dispatch::WHS);
        assert_eq!(
            RParse::is_whitespace(byte),
            in_table && byte != b'\r' && byte != b'\n'
        );
        assert_eq!(RParse::is_trivia_gap(&[byte]), in_table);
    }
}

#[test]
fn bits_of_cases_agree_with_the_case_crate() {
    for (case, theirs) in PAIRS {
        assert_eq!(case.bits(), theirs as u16, "{:?}", case);
    }
}

#[test]
fn sets_of_cases_agree_with_the_case_crate() {
    for (first, their_first) in PAIRS {
        for (second, their_second) in PAIRS {
            let ours = Cases::empty().with(first).with(second);
            let theirs = their_first | their_second;
            assert!(!ours.is_empty());
            assert!(!theirs.is_empty());
            for (case, their_case) in PAIRS {
                assert_eq!(ours.contains(case), theirs.contains(their_case));
            }
        }
    }
    assert!(Cases::empty().is_empty());
    assert!(biome_string_case::Cases::empty().is_empty());
    for (case, their_case) in PAIRS {
        assert_eq!(
            Cases::empty().contains(case),
            biome_string_case::Cases::empty().contains(their_case)
        );
    }
}

#[test]
fn cases_of_file_name_cases_agree_with_the_case_crate() {
    let all = [
        FilenameCase::Camel,
        FilenameCase::Export,
        FilenameCase::Kebab,
        FilenameCase::Pascal,
        FilenameCase::Snake,
    ];
    for mask in 0..32u32 {
        let chosen: Vec<FilenameCase> = all
            .iter()
            .enumerate()
            .filter(|(index, _)| mask & (1 << index) != 0)
            .map(|(_, case)| *case)
            .collect();
        let ours = FilenameCases::from_iter(&chosen);
        assert_eq!(ours.len(), chosen.len());
        let theirs = chosen
            .iter()
            .filter_map(|case| match case.try_into_case() {
                Ok(case) => PAIRS
                    .iter()
                    .find(|(ours, _)| *ours == case)
                    .map(|(_, theirs)| *theirs),
                Err(_) => None,
            })
            .fold(biome_string_case::Cases::empty(), |acc, case| acc | case);
        assert_eq!(ours.cases().is_empty(), theirs.is_empty());
        for (case, their_case) in PAIRS {
            assert_eq!(ours.cases().contains(case), theirs.contains(their_case));
        }
    }
}
