//! The naming convention of file names: the cases a name may be in, and
//! the check of a file name against them.

use crate::strings::{lemma_boundary_at_ascii, slice_str, str_eq};
use vstd::prelude::*;
use vstd::string::StringSliceAdditionalSpecFns;
use vstd::utf8::{
    decode_utf8, encode_utf8, encode_utf8_valid_utf8, is_ascii_chars, is_char_boundary,
    is_char_boundary_start_end_of_seq, valid_utf8,
};

verus! {

/// What is wrong with a file name.
#[derive(Clone, Copy, PartialEq, Eq, Structural, Hash, Debug)]
pub enum FileNamingConventionState {
    /// The name is not in ASCII while ASCII is required.
    Ascii,
    /// The name is not in one of the allowed cases.
    Filename,
    /// An extension is not in one of the allowed cases.
    Extension,
}

/// The cases that a file name can be asked to be in.
#[derive(Clone, Copy, PartialEq, Eq, Structural, Hash, Debug)]
pub enum FilenameCase {
    /// camelCase
    Camel,
    /// Equal to the name of an export
    Export,
    /// kebab-case
    Kebab,
    /// PascalCase
    Pascal,
    /// snake_case
    Snake,
}

/// The case of a string. Some cases include others: a name in `Lower` is
/// also in `Camel`, `Kebab` and `Snake`, and every name is in `Unknown`.
#[derive(Clone, Copy, PartialEq, Eq, Structural, Hash, Debug)]
pub enum Case {
    /// ASCII digits
    Number,
    /// Alphanumeric characters that are neither lowercase nor uppercase
    Uni,
    /// A, B1, C42
    NumberableCapital,
    /// UPPERCASE
    Upper,
    /// CONSTANT_CASE
    Constant,
    /// PascalCase
    Pascal,
    /// lowercase
    Lower,
    /// snake_case
    Snake,
    /// kebab-case
    Kebab,
    /// camelCase
    Camel,
    /// Any other string
    Unknown,
}

impl Case {
    /// The cases that the case includes, itself among them, as a set of
    /// bits: one bit for each case.
    pub open spec fn spec_bits(self) -> u16 {
        match self {
            Case::Number => 0x001,
            Case::Uni => 0x003,
            Case::NumberableCapital => 0x004,
            Case::Upper => 0x00C,
            Case::Constant => 0x01C,
            Case::Pascal => 0x024,
            Case::Lower => 0x041,
            Case::Snake => 0x0C1,
            Case::Kebab => 0x141,
            Case::Camel => 0x241,
            Case::Unknown => 0x7FF,
        }
    }

    #[verifier::when_used_as_spec(spec_bits)]
    pub fn bits(self) -> (r: u16)
        ensures
            r == self.spec_bits(),
    {
        match self {
            Case::Number => 0x001,
            Case::Uni => 0x003,
            Case::NumberableCapital => 0x004,
            Case::Upper => 0x00C,
            Case::Constant => 0x01C,
            Case::Pascal => 0x024,
            Case::Lower => 0x041,
            Case::Snake => 0x0C1,
            Case::Kebab => 0x141,
            Case::Camel => 0x241,
            Case::Unknown => 0x7FF,
        }
    }
}

/// A set of cases.
#[derive(Clone, Copy, PartialEq, Eq, Structural, Hash, Debug)]
pub struct Cases {
    pub bits: u16,
}

impl Cases {
    /// The empty set.
    pub fn empty() -> (r: Cases)
        ensures
            r.bits == 0,
    {
        Cases { bits: 0 }
    }

    pub open spec fn spec_is_empty(self) -> bool {
        self.bits == 0
    }

    /// Whether the set holds no case.
    #[verifier::when_used_as_spec(spec_is_empty)]
    pub fn is_empty(self) -> (r: bool)
        ensures
            r == self.spec_is_empty(),
    {
        self.bits == 0
    }

    pub open spec fn spec_contains(self, case: Case) -> bool {
        self.bits & case.spec_bits() == case.spec_bits()
    }

    /// Whether the set holds `case` and all the cases that it includes.
    #[verifier::when_used_as_spec(spec_contains)]
    pub fn contains(self, case: Case) -> (r: bool)
        ensures
            r == self.spec_contains(case),
    {
        self.bits & case.bits() == case.bits()
    }

    pub open spec fn spec_with(self, case: Case) -> Cases {
        Cases { bits: self.bits | case.spec_bits() }
    }

    /// The set with `case`, and all the cases that it includes, added.
    #[verifier::when_used_as_spec(spec_with)]
    pub fn with(self, case: Case) -> (r: Cases)
        ensures
            r == self.spec_with(case),
    {
        Cases { bits: self.bits | case.bits() }
    }
}

/// The names of the file name cases, as the configuration spells them.
pub fn allowed_variants() -> (r: [&'static str; 5])
    ensures
        r@ == seq!["camelCase", "export", "kebab-case", "PascalCase", "snake_case"],
{
    ["camelCase", "export", "kebab-case", "PascalCase", "snake_case"]
}

/// The message for a name that spells no file name case.
pub open spec fn unsupported_case_message() -> Seq<char> {
    "Value not supported for enum member case"@
}

/// The message for the one file name case that is no case of a string.
pub open spec fn export_is_no_case_message() -> Seq<char> {
    "`export` is not a valid case"@
}

impl FilenameCase {
    /// The file name case that `s` spells.
    pub open spec fn spelled_by(s: Seq<char>) -> Option<FilenameCase> {
        if s == "camelCase"@ {
            Some(FilenameCase::Camel)
        } else if s == "export"@ {
            Some(FilenameCase::Export)
        } else if s == "kebab-case"@ {
            Some(FilenameCase::Kebab)
        } else if s == "PascalCase"@ {
            Some(FilenameCase::Pascal)
        } else if s == "snake_case"@ {
            Some(FilenameCase::Snake)
        } else {
            None
        }
    }

    /// Reads a file name case from its name in the configuration.
    pub fn from_str(s: &str) -> (r: Result<FilenameCase, &'static str>)
        ensures
            match Self::spelled_by(s@) {
                Some(case) => r == Ok::<FilenameCase, &'static str>(case),
                None => r is Err && r->Err_0@ == unsupported_case_message(),
            },
    {
        if str_eq(s, "camelCase") {
            Ok(FilenameCase::Camel)
        } else if str_eq(s, "export") {
            Ok(FilenameCase::Export)
        } else if str_eq(s, "kebab-case") {
            Ok(FilenameCase::Kebab)
        } else if str_eq(s, "PascalCase") {
            Ok(FilenameCase::Pascal)
        } else if str_eq(s, "snake_case") {
            Ok(FilenameCase::Snake)
        } else {
            Err("Value not supported for enum member case")
        }
    }

    /// The case of a string that the file name case asks for, if it asks
    /// for one.
    pub open spec fn string_case(self) -> Option<Case> {
        match self {
            FilenameCase::Camel => Some(Case::Camel),
            FilenameCase::Export => None,
            FilenameCase::Kebab => Some(Case::Kebab),
            FilenameCase::Pascal => Some(Case::Pascal),
            FilenameCase::Snake => Some(Case::Snake),
        }
    }

    /// The case of a string that the file name case asks for; `Export`
    /// asks for none.
    pub fn try_into_case(self) -> (r: Result<Case, &'static str>)
        ensures
            match self.string_case() {
                Some(case) => r == Ok::<Case, &'static str>(case),
                None => r is Err && r->Err_0@ == export_is_no_case_message(),
            },
    {
        match self {
            FilenameCase::Camel => Ok(Case::Camel),
            FilenameCase::Export => Err("`export` is not a valid case"),
            FilenameCase::Kebab => Ok(Case::Kebab),
            FilenameCase::Pascal => Ok(Case::Pascal),
            FilenameCase::Snake => Ok(Case::Snake),
        }
    }
}

/// The set of the allowed file name cases.
#[derive(Clone, Copy, PartialEq, Eq, Structural, Hash, Debug)]
pub struct FilenameCases {
    pub camel: bool,
    pub export: bool,
    pub kebab: bool,
    pub pascal: bool,
    pub snake: bool,
}

impl FilenameCases {
    pub open spec fn spec_contains(&self, case: &FilenameCase) -> bool {
        match *case {
            FilenameCase::Camel => self.camel,
            FilenameCase::Export => self.export,
            FilenameCase::Kebab => self.kebab,
            FilenameCase::Pascal => self.pascal,
            FilenameCase::Snake => self.snake,
        }
    }

    /// Whether `case` is in the set.
    #[verifier::when_used_as_spec(spec_contains)]
    pub fn contains(&self, case: &FilenameCase) -> (r: bool)
        ensures
            r == self.spec_contains(case),
    {
        match *case {
            FilenameCase::Camel => self.camel,
            FilenameCase::Export => self.export,
            FilenameCase::Kebab => self.kebab,
            FilenameCase::Pascal => self.pascal,
            FilenameCase::Snake => self.snake,
        }
    }

    pub open spec fn spec_len(&self) -> nat {
        (if self.camel { 1nat } else { 0nat }) + (if self.export { 1nat } else { 0nat }) + (
        if self.kebab { 1nat } else { 0nat }) + (if self.pascal { 1nat } else { 0nat }) + (
        if self.snake { 1nat } else { 0nat })
    }

    /// The number of cases in the set.
    pub fn len(&self) -> (r: usize)
        ensures
            r == self.spec_len(),
    {
        let mut n: usize = 0;
        if self.camel {
            n += 1;
        }
        if self.export {
            n += 1;
        }
        if self.kebab {
            n += 1;
        }
        if self.pascal {
            n += 1;
        }
        if self.snake {
            n += 1;
        }
        n
    }

    /// The set with `case` added.
    pub fn insert(self, case: FilenameCase) -> (r: FilenameCases)
        ensures
            forall|other: FilenameCase|
                #[trigger] r.spec_contains(&other) == (other == case || self.spec_contains(&other)),
    {
        match case {
            FilenameCase::Camel => FilenameCases { camel: true, ..self },
            FilenameCase::Export => FilenameCases { export: true, ..self },
            FilenameCase::Kebab => FilenameCases { kebab: true, ..self },
            FilenameCase::Pascal => FilenameCases { pascal: true, ..self },
            FilenameCase::Snake => FilenameCases { snake: true, ..self },
        }
    }

    /// The set of the given cases.
    pub fn from_iter(cases: &[FilenameCase]) -> (r: FilenameCases)
        ensures
            forall|other: FilenameCase|
                #[trigger] r.spec_contains(&other) == cases@.contains(other),
    {
        let mut set = FilenameCases {
            camel: false,
            export: false,
            kebab: false,
            pascal: false,
            snake: false,
        };
        let mut i: usize = 0;
        while i < cases.len()
            invariant
                i <= cases@.len(),
                forall|other: FilenameCase|
                    #[trigger] set.spec_contains(&other) == cases@.take(i as int).contains(other),
            decreases cases@.len() - i,
        {
            let ghost before = set;
            set = set.insert(cases[i]);
            proof {
                assert forall|other: FilenameCase| #[trigger]
                    set.spec_contains(&other) == cases@.take(i + 1).contains(other) by {
                    assert(cases@.take(i + 1) =~= cases@.take(i as int).push(cases@[i as int]));
                    if cases@.take(i as int).contains(other) {
                        let k = choose|k: int|
                            0 <= k < i && cases@.take(i as int)[k] == other;
                        assert(cases@.take(i + 1)[k] == other);
                    }
                    if other == cases@[i as int] {
                        assert(cases@.take(i + 1)[i as int] == other);
                    }
                }
            }
            i += 1;
        }
        proof {
            assert(cases@.take(i as int) =~= cases@);
        }
        set
    }

    /// The set of the cases of a list in the configuration, which must not
    /// be empty.
    pub fn from_array(cases: &[FilenameCase]) -> (r: Option<FilenameCases>)
        ensures
            r is Some == (cases@.len() > 0),
            r is Some ==> forall|other: FilenameCase|
                #[trigger] r.unwrap().spec_contains(&other) == cases@.contains(other),
    {
        if cases.len() == 0 {
            None
        } else {
            Some(FilenameCases::from_iter(cases))
        }
    }

    /// The cases of a string that the set allows: those of its members but
    /// `Export`, which is no case of a string.
    pub open spec fn spec_cases(&self) -> Cases {
        let none = Cases { bits: 0 };
        let camel = if self.camel {
            none.spec_with(Case::Camel)
        } else {
            none
        };
        let kebab = if self.kebab {
            camel.spec_with(Case::Kebab)
        } else {
            camel
        };
        let pascal = if self.pascal {
            kebab.spec_with(Case::Pascal)
        } else {
            kebab
        };
        if self.snake {
            pascal.spec_with(Case::Snake)
        } else {
            pascal
        }
    }

    #[verifier::when_used_as_spec(spec_cases)]
    pub fn cases(&self) -> (r: Cases)
        ensures
            r == self.spec_cases(),
    {
        let mut cases = Cases::empty();
        if self.camel {
            cases = cases.with(Case::Camel);
        }
        if self.kebab {
            cases = cases.with(Case::Kebab);
        }
        if self.pascal {
            cases = cases.with(Case::Pascal);
        }
        if self.snake {
            cases = cases.with(Case::Snake);
        }
        cases
    }
}

impl Default for FilenameCases {
    /// Every case but `Pascal`.
    fn default() -> (r: Self)
        ensures
            r == (FilenameCases {
                camel: true,
                export: true,
                kebab: true,
                pascal: false,
                snake: true,
            }),
    {
        FilenameCases { camel: true, export: true, kebab: true, pascal: false, snake: true }
    }
}

/// The options of the check of file names.
#[derive(Clone, Copy, PartialEq, Eq, Structural, Debug)]
pub struct FilenamingConventionOptions {
    /// If `false`, consecutive uppercase characters are allowed in camel and
    /// pascal case.
    pub strict_case: bool,
    /// If `false`, characters outside ASCII are allowed.
    pub require_ascii: bool,
    /// The allowed cases of file names.
    pub filename_cases: FilenameCases,
}

impl Default for FilenamingConventionOptions {
    fn default() -> (r: Self)
        ensures
            r.strict_case,
            !r.require_ascii,
            r.filename_cases == (FilenameCases {
                camel: true,
                export: true,
                kebab: true,
                pascal: false,
                snake: true,
            }),
    {
        FilenamingConventionOptions {
            strict_case: true,
            require_ascii: false,
            filename_cases: FilenameCases::default(),
        }
    }
}

/// The value of an option that is on unless it is switched off.
pub fn enabled() -> (r: bool)
    ensures
        r,
{
    true
}

/// Whether the option is on.
pub fn is_enabled(value: &bool) -> (r: bool)
    ensures
        r == *value,
{
    *value
}

/// Whether the option has the value that it has by default, `false`.
pub fn is_default(value: &bool) -> (r: bool)
    ensures
        r == !*value,
{
    !*value
}

/// Whether the allowed cases are those that are allowed by default: four
/// cases, `Pascal` not among them.
pub fn is_default_filename_cases(value: &FilenameCases) -> (r: bool)
    ensures
        r == (*value == (FilenameCases {
            camel: true,
            export: true,
            kebab: true,
            pascal: false,
            snake: true,
        })),
{
    value.len() == 4 && !value.contains(&FilenameCase::Pascal)
}

/// The case of `value`, as `biome_string_case` identifies it; with
/// `strict`, two uppercase characters in a row are not allowed in camel and
/// pascal case.
pub uninterp spec fn identified_case(value: Seq<char>, strict: bool) -> Case;

/// Asks `biome_string_case` for the case of `value` (`Case::identify`) and
/// hands it out as a `Case` of this library, variant for variant.
#[verifier::external_body]
fn identify(value: &str, strict: bool) -> (r: Case)
    ensures
        r == identified_case(value@, strict),
{
    match biome_string_case::Case::identify(value, strict) {
        biome_string_case::Case::Number => Case::Number,
        biome_string_case::Case::Uni => Case::Uni,
        biome_string_case::Case::NumberableCapital => Case::NumberableCapital,
        biome_string_case::Case::Upper => Case::Upper,
        biome_string_case::Case::Constant => Case::Constant,
        biome_string_case::Case::Pascal => Case::Pascal,
        biome_string_case::Case::Lower => Case::Lower,
        biome_string_case::Case::Snake => Case::Snake,
        biome_string_case::Case::Kebab => Case::Kebab,
        biome_string_case::Case::Camel => Case::Camel,
        biome_string_case::Case::Unknown => Case::Unknown,
    }
}

/// An extension in the case `case` is allowed: the case is one of the
/// allowed cases of file names, or lower case.
pub open spec fn extension_case_allowed(case: Case, filename_cases: FilenameCases) -> bool {
    filename_cases.spec_cases().spec_with(Case::Lower).spec_contains(case)
}

/// A name in the case `case` is allowed: there are allowed cases of strings,
/// and the case is one of them or without case.
pub open spec fn name_case_allowed(case: Case, filename_cases: FilenameCases) -> bool {
    !filename_cases.spec_cases().spec_is_empty() && filename_cases.spec_cases().spec_with(
        Case::Uni,
    ).spec_contains(case)
}

/// The name is in camel case where two uppercase characters in a row are
/// allowed, `relaxed`, and in no case where they are not, `strict`.
pub open spec fn strict_case_breaks_camel(relaxed: Case, strict: Case) -> bool {
    relaxed == Case::Camel && strict == Case::Unknown
}

/// Whether an extension that was identified as `case` is allowed.
pub fn is_allowed_extension_case(case: Case, filename_cases: &FilenameCases) -> (r: bool)
    ensures
        r == extension_case_allowed(case, *filename_cases),
{
    filename_cases.cases().with(Case::Lower).contains(case)
}

/// Whether a name that was identified as `case` is allowed.
pub fn is_allowed_name_case(case: Case, filename_cases: &FilenameCases) -> (r: bool)
    ensures
        r == name_case_allowed(case, *filename_cases),
{
    let allowed_cases = filename_cases.cases();
    !allowed_cases.is_empty() && allowed_cases.with(Case::Uni).contains(case)
}

/// Whether a name that was identified as `relaxed` where two uppercase
/// characters in a row are allowed, and as `strict` where they are not, is
/// in camel case but for such characters.
pub fn breaks_camel_when_strict(relaxed: Case, strict: Case) -> (r: bool)
    ensures
        r == strict_case_breaks_camel(relaxed, strict),
{
    relaxed == Case::Camel && strict == Case::Unknown
}

/// The index of the first dot at or after `i`, or the length of `bytes`
/// where there is none.
pub open spec fn dot_from(bytes: Seq<u8>, i: int) -> int
    decreases bytes.len() - i,
{
    if 0 <= i < bytes.len() && bytes[i] != 0x2E {
        dot_from(bytes, i + 1)
    } else {
        i
    }
}

/// The index of the first byte at or after `i` and before `end` that is no
/// underscore, or `end`.
pub open spec fn skip_underscores(bytes: Seq<u8>, i: int, end: int) -> int
    decreases end - i,
{
    if 0 <= i < end <= bytes.len() && bytes[i] == 0x5F {
        skip_underscores(bytes, i + 1, end)
    } else {
        i
    }
}

/// The index after the last byte before `j` and at or after `start` that is
/// no underscore, or `start`.
pub open spec fn drop_underscores(bytes: Seq<u8>, start: int, j: int) -> int
    decreases j - start,
{
    if 0 <= start < j <= bytes.len() && bytes[j - 1] == 0x5F {
        drop_underscores(bytes, start, j - 1)
    } else {
        j
    }
}

/// The bytes `start..end` without the underscores at their front and at
/// their back.
pub open spec fn trim_underscores(bytes: Seq<u8>, start: int, end: int) -> Seq<u8> {
    let from = skip_underscores(bytes, start, end);
    bytes.subrange(from, drop_underscores(bytes, from, end))
}

/// A byte that the name of a dynamic route may hold: an ASCII letter or
/// digit, a hyphen or an underscore.
pub open spec fn is_route_byte(byte: u8) -> bool {
    (0x30 <= byte <= 0x39) || (0x41 <= byte <= 0x5A) || (0x61 <= byte <= 0x7A) || byte == 0x2D
        || byte == 0x5F
}

/// The name of a dynamic route is well formed: it ends with as many closing
/// brackets as it was opened with, and holds nothing but route bytes before
/// them.
pub open spec fn dynamic_route_ok(route: Seq<u8>, first: u8, count: int) -> bool {
    let closing: u8 = if first == 0x5B {
        0x5D
    } else {
        0x29
    };
    &&& route.len() >= count
    &&& forall|k: int| route.len() - count <= k < route.len() ==> #[trigger] route[k] == closing
    &&& forall|k: int| 0 <= k < route.len() - count ==> is_route_byte(#[trigger] route[k])
}

/// Whether three dots stand at `at`.
pub open spec fn dots_at(bytes: Seq<u8>, at: int) -> bool {
    at + 3 <= bytes.len() && bytes[at] == 0x2E && bytes[at + 1] == 0x2E && bytes[at + 2] == 0x2E
}

/// Every extension is in an allowed case, where `dot` is the index of the
/// dot before the first extension, or the length of `bytes` where there is
/// no extension.
pub open spec fn extensions_allowed(
    bytes: Seq<u8>,
    dot: int,
    filename_cases: FilenameCases,
    strict: bool,
) -> bool
    decreases bytes.len() - dot,
{
    if 0 <= dot < bytes.len() {
        let end = dot_from(bytes, dot + 1);
        proof {
            lemma_dot_from_bounds(bytes, dot + 1);
        }
        extension_case_allowed(
            identified_case(decode_utf8(bytes.subrange(dot + 1, end)), strict),
            filename_cases,
        ) && extensions_allowed(bytes, end, filename_cases, strict)
    } else {
        true
    }
}

pub proof fn lemma_dot_from_bounds(bytes: Seq<u8>, i: int)
    requires
        0 <= i <= bytes.len(),
    ensures
        i <= dot_from(bytes, i) <= bytes.len(),
        dot_from(bytes, i) < bytes.len() ==> bytes[dot_from(bytes, i)] == 0x2E,
    decreases bytes.len() - i,
{
    if i < bytes.len() && bytes[i] != 0x2E {
        lemma_dot_from_bounds(bytes, i + 1);
    }
}

/// Whether one of the exports has the given name.
pub open spec fn exports_name(exports: Seq<String>, name: Seq<char>) -> bool {
    exists|i: int| 0 <= i < exports.len() && (#[trigger] exports[i])@ == name
}

/// What is wrong with a file name whose name part is the bytes `start..end`
/// (none for a dynamic route) and whose extensions start at `end`.
///
/// An extension must be in an allowed case or in lower case. The name,
/// without the underscores around it, must be in an allowed case or
/// without case; failing that, and where `Export` is allowed, it must be
/// the name of an export.
pub open spec fn parts_state(
    bytes: Seq<u8>,
    start: int,
    end: int,
    options: FilenamingConventionOptions,
    exports: Seq<String>,
) -> Option<FileNamingConventionState> {
    if !extensions_allowed(bytes, end, options.filename_cases, options.strict_case) {
        Some(FileNamingConventionState::Extension)
    } else if start == end {
        None
    } else if name_case_allowed(
        identified_case(decode_utf8(trim_underscores(bytes, start, end)), options.strict_case),
        options.filename_cases,
    ) {
        None
    } else if options.filename_cases.export && exports_name(
        exports,
        decode_utf8(bytes.subrange(start, end)),
    ) {
        None
    } else {
        Some(FileNamingConventionState::Filename)
    }
}

/// What is wrong with the file name, if anything.
///
/// A name that starts with `(` or `[` is a dynamic route, as in `[slug].js`,
/// `[[...slug]].js` or `(group).js`: its name must be well formed, and only
/// its extensions are checked. Of any other name a dot or a plus sign at
/// the front is passed over; the name part reaches to the first dot and
/// must not be empty.
pub open spec fn filename_state(
    file_name: Seq<char>,
    options: FilenamingConventionOptions,
    exports: Seq<String>,
) -> Option<FileNamingConventionState> {
    let bytes = encode_utf8(file_name);
    if options.require_ascii && !is_ascii_chars(file_name) {
        Some(FileNamingConventionState::Ascii)
    } else if bytes.len() == 0 {
        None
    } else if bytes[0] == 0x28 || bytes[0] == 0x5B {
        let count: int = if bytes.len() >= 2 && bytes[0] == 0x5B && bytes[1] == 0x5B {
            2
        } else {
            1
        };
        let start = if bytes[0] != 0x28 && dots_at(bytes, count) {
            count + 3
        } else {
            count
        };
        let end = dot_from(bytes, start);
        if !dynamic_route_ok(bytes.subrange(start, end), bytes[0], count) {
            Some(FileNamingConventionState::Filename)
        } else {
            parts_state(bytes, end, end, options, exports)
        }
    } else {
        let start: int = if bytes[0] == 0x2E || bytes[0] == 0x2B {
            1
        } else {
            0
        };
        let end = dot_from(bytes, start);
        if end == start {
            Some(FileNamingConventionState::Filename)
        } else {
            parts_state(bytes, start, end, options, exports)
        }
    }
}

/// The index of the first dot at or after `from`.
fn find_dot(bytes: &[u8], from: usize) -> (r: usize)
    requires
        from <= bytes@.len(),
    ensures
        r == dot_from(bytes@, from as int),
        from <= r <= bytes@.len(),
        r < bytes@.len() ==> bytes@[r as int] == 0x2E,
{
    let n: usize = bytes.len();
    let mut i: usize = from;
    while i < n && bytes[i] != 0x2E
        invariant
            from <= i <= n,
            n == bytes@.len(),
            dot_from(bytes@, i as int) == dot_from(bytes@, from as int),
        decreases n - i,
    {
        i += 1;
    }
    i
}

/// Whether the bytes `start..end` are a well-formed name of a dynamic
/// route.
fn route_is_ok(bytes: &[u8], start: usize, end: usize, first: u8, count: usize) -> (r: bool)
    requires
        start <= end <= bytes@.len(),
        1 <= count <= 2,
    ensures
        r == dynamic_route_ok(bytes@.subrange(start as int, end as int), first, count as int),
{
    let ghost route = bytes@.subrange(start as int, end as int);
    let closing: u8 = if first == 0x5B {
        0x5D
    } else {
        0x29
    };
    if end - start < count {
        return false;
    }
    let mut k: usize = start;
    while k < end
        invariant
            start <= k <= end <= bytes@.len(),
            end - start >= count,
            route == bytes@.subrange(start as int, end as int),
            closing == (if first == 0x5B {
                0x5Du8
            } else {
                0x29u8
            }),
            forall|j: int|
                route.len() - count <= j < k - start ==> #[trigger] route[j] == closing,
            forall|j: int|
                0 <= j < k - start && j < route.len() - count ==> is_route_byte(#[trigger] route[j]),
        decreases end - k,
    {
        let byte: u8 = bytes[k];
        assert(byte == route[k - start]);
        if k >= end - count {
            if byte != closing {
                return false;
            }
        } else {
            let fits = (0x30 <= byte && byte <= 0x39) || (0x41 <= byte && byte <= 0x5A) || (0x61
                <= byte && byte <= 0x7A) || byte == 0x2D || byte == 0x5F;
            if !fits {
                return false;
            }
        }
        k += 1;
    }
    true
}

/// Whether every extension of the file name is in an allowed case, where
/// `dot` is the index of the dot before the first extension.
fn extensions_are_allowed(
    file_name: &str,
    dot: usize,
    filename_cases: &FilenameCases,
    strict: bool,
) -> (r: bool)
    requires
        dot <= file_name.spec_bytes().len(),
        dot < file_name.spec_bytes().len() ==> file_name.spec_bytes()[dot as int] == 0x2E,
    ensures
        r == extensions_allowed(file_name.spec_bytes(), dot as int, *filename_cases, strict),
{
    let bytes: &[u8] = file_name.as_bytes();
    let n: usize = bytes.len();
    let mut pos: usize = dot;
    proof {
        encode_utf8_valid_utf8(file_name@);
    }
    while pos < n
        invariant
            pos <= n,
            n == bytes@.len(),
            bytes@ == file_name.spec_bytes(),
            valid_utf8(bytes@),
            pos < n ==> bytes@[pos as int] == 0x2E,
            extensions_allowed(bytes@, pos as int, *filename_cases, strict) == extensions_allowed(
                bytes@,
                dot as int,
                *filename_cases,
                strict,
            ),
        decreases n - pos,
    {
        let end = find_dot(bytes, pos + 1);
        proof {
            lemma_boundary_at_ascii(bytes@, pos as int);
            if end < n {
                lemma_boundary_at_ascii(bytes@, end as int);
            } else {
                is_char_boundary_start_end_of_seq(bytes@);
            }
        }
        let extension = slice_str(file_name, pos + 1, end);
        if !is_allowed_extension_case(identify(extension, strict), filename_cases) {
            return false;
        }
        pos = end;
    }
    true
}

/// Whether one of the exports has the given name.
fn has_export(exports: &Vec<String>, name: &str) -> (r: bool)
    ensures
        r == exports_name(exports@, name@),
{
    let mut i: usize = 0;
    while i < exports.len()
        invariant
            i <= exports@.len(),
            forall|j: int| 0 <= j < i ==> (#[trigger] exports@[j])@ != name@,
        decreases exports@.len() - i,
    {
        if str_eq(exports[i].as_str(), name) {
            return true;
        }
        i += 1;
    }
    false
}

/// Checks the name part `start..end` of a file name, and the extensions
/// that follow it.
fn check_parts(
    file_name: &str,
    start: usize,
    end: usize,
    options: &FilenamingConventionOptions,
    exports: &Vec<String>,
) -> (r: Option<FileNamingConventionState>)
    requires
        start <= end <= file_name.spec_bytes().len(),
        end < file_name.spec_bytes().len() ==> file_name.spec_bytes()[end as int] == 0x2E,
        is_char_boundary(file_name.spec_bytes(), start as int),
    ensures
        r == parts_state(file_name.spec_bytes(), start as int, end as int, *options, exports@),
{
    let bytes: &[u8] = file_name.as_bytes();
    if !extensions_are_allowed(file_name, end, &options.filename_cases, options.strict_case) {
        return Some(FileNamingConventionState::Extension);
    }
    if start == end {
        return None;
    }
    proof {
        encode_utf8_valid_utf8(file_name@);
        if end < bytes@.len() {
            lemma_boundary_at_ascii(bytes@, end as int);
        } else {
            is_char_boundary_start_end_of_seq(bytes@);
        }
    }
    if !options.filename_cases.cases().is_empty() {
        let mut from: usize = start;
        while from < end && bytes[from] == 0x5F
            invariant
                start <= from <= end <= bytes@.len(),
                valid_utf8(bytes@),
                is_char_boundary(bytes@, from as int),
                skip_underscores(bytes@, from as int, end as int) == skip_underscores(
                    bytes@,
                    start as int,
                    end as int,
                ),
            decreases end - from,
        {
            proof {
                lemma_boundary_at_ascii(bytes@, from as int);
            }
            from += 1;
        }
        let mut to: usize = end;
        while from < to && bytes[to - 1] == 0x5F
            invariant
                from <= to <= end <= bytes@.len(),
                valid_utf8(bytes@),
                is_char_boundary(bytes@, to as int),
                drop_underscores(bytes@, from as int, to as int) == drop_underscores(
                    bytes@,
                    from as int,
                    end as int,
                ),
            decreases to - from,
        {
            proof {
                lemma_boundary_at_ascii(bytes@, to - 1);
            }
            to -= 1;
        }
        let trimmed_name = slice_str(file_name, from, to);
        let case = identify(trimmed_name, options.strict_case);
        if is_allowed_name_case(case, &options.filename_cases) {
            return None;
        }
    }
    if options.filename_cases.contains(&FilenameCase::Export) {
        let name = slice_str(file_name, start, end);
        // Where no export has the name of the file, the name is reported.
        if has_export(exports, name) {
            None
        } else {
            Some(FileNamingConventionState::Filename)
        }
    } else {
        Some(FileNamingConventionState::Filename)
    }
}

/// Checks a file name against the naming convention that `options`
/// describe; `exports` holds the names that the file exports.
pub fn check_filename(
    file_name: &str,
    options: &FilenamingConventionOptions,
    exports: &Vec<String>,
) -> (r: Option<FileNamingConventionState>)
    ensures
        r == filename_state(file_name@, *options, exports@),
{
    if options.require_ascii && !file_name.is_ascii() {
        return Some(FileNamingConventionState::Ascii);
    }
    let bytes: &[u8] = file_name.as_bytes();
    let n: usize = bytes.len();
    if n == 0 {
        return None;
    }
    proof {
        encode_utf8_valid_utf8(file_name@);
        is_char_boundary_start_end_of_seq(bytes@);
    }
    let first_char: u8 = bytes[0];
    if first_char == 0x28 || first_char == 0x5B {
        // Dynamic routes: `(slug).js`, `[slug].js`, `[[slug]].js`,
        // `[...slug].js`, `[[...slug]].js`.
        let count: usize = if n >= 2 && first_char == 0x5B && bytes[1] == 0x5B {
            2
        } else {
            1
        };
        let start: usize = if first_char != 0x28 && n - count >= 3 && bytes[count] == 0x2E
            && bytes[count + 1] == 0x2E && bytes[count + 2] == 0x2E {
            count + 3
        } else {
            count
        };
        let end = find_dot(bytes, start);
        if !route_is_ok(bytes, start, end, first_char, count) {
            return Some(FileNamingConventionState::Filename);
        }
        proof {
            if end < n {
                lemma_boundary_at_ascii(bytes@, end as int);
            }
        }
        check_parts(file_name, end, end, options, exports)
    } else {
        // A dot at the front marks a hidden file, a plus sign a page of a
        // routing convention.
        let start: usize = if first_char == 0x2E || first_char == 0x2B {
            1
        } else {
            0
        };
        let end = find_dot(bytes, start);
        if end == start {
            return Some(FileNamingConventionState::Filename);
        }
        proof {
            if start == 1 {
                lemma_boundary_at_ascii(bytes@, 0);
            }
        }
        check_parts(file_name, start, end, options, exports)
    }
}

/// What there is to say of a file name that was reported.
#[derive(Clone, Copy, PartialEq, Eq, Structural, Debug)]
pub enum FilenameDiagnostic {
    /// The name should be in ASCII.
    Ascii,
    /// The name is in camel case but for two uppercase characters in a row,
    /// which the strict case does not allow. The bytes `start..end` of the
    /// file name are the name without its underscores; `was_trimmed` says
    /// whether there were any.
    StrictCamel { start: usize, end: usize, was_trimmed: bool },
    /// The name should be in one of the cases `allowed`, or, with `export`,
    /// be the name of an export.
    Filename { start: usize, end: usize, was_trimmed: bool, allowed: Cases, export: bool },
    /// The extensions should be in one of the cases `allowed`.
    Extension { allowed: Cases },
}

/// The part of a reported file name that is its name: the part before the
/// first dot, without a plus sign at its front; for a name that starts with
/// a dot, the part between that dot and the next one. The empty file name
/// has none.
pub open spec fn reported_name(bytes: Seq<u8>) -> Option<(int, int)> {
    let first_dot = dot_from(bytes, 0);
    if first_dot == 0 {
        if bytes.len() == 0 {
            None
        } else {
            Some((1, dot_from(bytes, 1)))
        }
    } else if bytes[0] == 0x2B {
        Some((1, first_dot))
    } else {
        Some((0, first_dot))
    }
}

/// What there is to say of the file name that was reported with `state`.
pub open spec fn diagnostic_of(
    file_name: Seq<char>,
    options: FilenamingConventionOptions,
    state: FileNamingConventionState,
) -> Option<FilenameDiagnostic> {
    let bytes = encode_utf8(file_name);
    match state {
        FileNamingConventionState::Ascii => Some(FilenameDiagnostic::Ascii),
        FileNamingConventionState::Extension => Some(
            FilenameDiagnostic::Extension {
                allowed: options.filename_cases.spec_cases().spec_with(Case::Lower),
            },
        ),
        FileNamingConventionState::Filename => match reported_name(bytes) {
            None => None,
            Some((from, to)) => {
                let start = skip_underscores(bytes, from, to);
                let end = drop_underscores(bytes, start, to);
                let was_trimmed = start != from || end != to;
                let name = decode_utf8(bytes.subrange(start, end));
                if options.strict_case && options.filename_cases.camel
                    && strict_case_breaks_camel(
                    identified_case(name, false),
                    identified_case(name, true),
                ) {
                    Some(
                        FilenameDiagnostic::StrictCamel {
                            start: start as usize,
                            end: end as usize,
                            was_trimmed,
                        },
                    )
                } else {
                    Some(
                        FilenameDiagnostic::Filename {
                            start: start as usize,
                            end: end as usize,
                            was_trimmed,
                            allowed: options.filename_cases.spec_cases(),
                            export: options.filename_cases.export,
                        },
                    )
                }
            },
        },
    }
}

/// Whether a name that is proposed in place of a reported one is in one of
/// the cases `allowed`.
pub fn is_allowed_name(name: &str, allowed: Cases, strict: bool) -> (r: bool)
    ensures
        r == allowed.spec_contains(identified_case(name@, strict)),
{
    allowed.contains(identify(name, strict))
}

/// Says what there is to say of the file name that was reported with
/// `state`.
pub fn diagnostic(
    file_name: &str,
    options: &FilenamingConventionOptions,
    state: FileNamingConventionState,
) -> (r: Option<FilenameDiagnostic>)
    ensures
        r == diagnostic_of(file_name@, *options, state),
        r matches Some(FilenameDiagnostic::StrictCamel { start, end, .. }) ==> start <= end
            <= file_name.spec_bytes().len() && is_char_boundary(
            file_name.spec_bytes(),
            start as int,
        ) && is_char_boundary(file_name.spec_bytes(), end as int),
        r matches Some(FilenameDiagnostic::Filename { start, end, .. }) ==> start <= end
            <= file_name.spec_bytes().len() && is_char_boundary(
            file_name.spec_bytes(),
            start as int,
        ) && is_char_boundary(file_name.spec_bytes(), end as int),
{
    match state {
        FileNamingConventionState::Ascii => Some(FilenameDiagnostic::Ascii),
        FileNamingConventionState::Extension => Some(
            FilenameDiagnostic::Extension {
                allowed: options.filename_cases.cases().with(Case::Lower),
            },
        ),
        FileNamingConventionState::Filename => {
            let bytes: &[u8] = file_name.as_bytes();
            let n: usize = bytes.len();
            proof {
                encode_utf8_valid_utf8(file_name@);
                is_char_boundary_start_end_of_seq(bytes@);
            }
            let first_dot = find_dot(bytes, 0);
            if first_dot == 0 && n == 0 {
                return None;
            }
            let (from, to) = if first_dot == 0 {
                // The file name starts with a dot.
                (1, find_dot(bytes, 1))
            } else if bytes[0] == 0x2B {
                (1, first_dot)
            } else {
                (0, first_dot)
            };
            proof {
                if from == 1 {
                    lemma_boundary_at_ascii(bytes@, 0);
                }
                if to < n {
                    lemma_boundary_at_ascii(bytes@, to as int);
                }
            }
            let mut start: usize = from;
            while start < to && bytes[start] == 0x5F
                invariant
                    from <= start <= to <= bytes@.len(),
                    valid_utf8(bytes@),
                    is_char_boundary(bytes@, start as int),
                    skip_underscores(bytes@, start as int, to as int) == skip_underscores(
                        bytes@,
                        from as int,
                        to as int,
                    ),
                decreases to - start,
            {
                proof {
                    lemma_boundary_at_ascii(bytes@, start as int);
                }
                start += 1;
            }
            let mut end: usize = to;
            while start < end && bytes[end - 1] == 0x5F
                invariant
                    start <= end <= to <= bytes@.len(),
                    valid_utf8(bytes@),
                    is_char_boundary(bytes@, end as int),
                    drop_underscores(bytes@, start as int, end as int) == drop_underscores(
                        bytes@,
                        start as int,
                        to as int,
                    ),
                decreases end - start,
            {
                proof {
                    lemma_boundary_at_ascii(bytes@, end - 1);
                }
                end -= 1;
            }
            let was_trimmed = start != from || end != to;
            if options.strict_case && options.filename_cases.contains(&FilenameCase::Camel) {
                let trimmed_name = slice_str(file_name, start, end);
                let case_type = identify(trimmed_name, false);
                let case_strict = identify(trimmed_name, true);
                if breaks_camel_when_strict(case_type, case_strict) {
                    return Some(FilenameDiagnostic::StrictCamel { start, end, was_trimmed });
                }
            }
            Some(
                FilenameDiagnostic::Filename {
                    start,
                    end,
                    was_trimmed,
                    allowed: options.filename_cases.cases(),
                    export: options.filename_cases.contains(&FilenameCase::Export),
                },
            )
        },
    }
}

} // verus!
