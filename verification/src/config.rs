//! Configuration: sections of keys with values, and where each value was set.

use vstd::prelude::*;
use vstd::string::*;
use crate::ordered::{Duplicate, result_view};
use crate::text::{
    Text, char_is_whitespace, chars_of, concat3, decimal, is_whitespace, lemma_split_at_char,
    nat_text, split_once, split_once_of, trim_start, trim_start_of,
};

verus! {

/// A configuration section and a key in it, as in `cxx.compiler`.
#[derive(Debug, PartialEq, Eq)]
pub struct ConfigSectionAndKey {
    pub section: String,
    pub key: String,
}

impl DeepView for ConfigSectionAndKey {
    type V = (Text, Text);

    open spec fn deep_view(&self) -> (Text, Text) {
        (self.section@, self.key@)
    }
}

/// Why an argument names no section and key; each with the argument.
#[derive(Debug, PartialEq, Eq)]
pub enum ConfigArgumentParseError {
    NoSectionDotSeparator(String),
    MissingData(String),
    WhitespaceInKeyOrValue(String),
}

/// The model of [`ConfigArgumentParseError`].
pub enum ConfigArgumentError {
    NoSectionDotSeparator(Text),
    MissingData(Text),
    WhitespaceInKeyOrValue(Text),
}

impl DeepView for ConfigArgumentParseError {
    type V = ConfigArgumentError;

    open spec fn deep_view(&self) -> ConfigArgumentError {
        match self {
            ConfigArgumentParseError::NoSectionDotSeparator(s) => {
                ConfigArgumentError::NoSectionDotSeparator(s@)
            },
            ConfigArgumentParseError::MissingData(s) => ConfigArgumentError::MissingData(s@),
            ConfigArgumentParseError::WhitespaceInKeyOrValue(s) => {
                ConfigArgumentError::WhitespaceInKeyOrValue(s@)
            },
        }
    }
}

impl ConfigArgumentError {
    /// The error in words.
    pub open spec fn text(self) -> Text {
        match self {
            ConfigArgumentError::NoSectionDotSeparator(s) => {
                "Could not find section separator (`.`) in pair `"@ + s + "`"@
            },
            ConfigArgumentError::MissingData(s) => {
                "Expected key-value in format of `section.key=value` but only got `"@ + s + "`"@
            },
            ConfigArgumentError::WhitespaceInKeyOrValue(s) => {
                "Contains whitespace in key-value pair `"@ + s + "`"@
            },
        }
    }
}

impl ConfigArgumentParseError {
    /// The error in words.
    pub fn display(&self) -> (r: String)
        ensures
            r@ == self.deep_view().text(),
    {
        match self {
            ConfigArgumentParseError::NoSectionDotSeparator(s) => {
                concat3("Could not find section separator (`.`) in pair `", s.as_str(), "`")
            },
            ConfigArgumentParseError::MissingData(s) => concat3(
                "Expected key-value in format of `section.key=value` but only got `",
                s.as_str(),
                "`",
            ),
            ConfigArgumentParseError::WhitespaceInKeyOrValue(s) => {
                concat3("Contains whitespace in key-value pair `", s.as_str(), "`")
            },
        }
    }
}

pub open spec fn has_whitespace(s: Text) -> bool {
    exists|i: int| 0 <= i < s.len() && is_whitespace(#[trigger] s[i])
}

fn contains_whitespace(s: &str) -> (r: bool)
    ensures
        r == has_whitespace(s@),
{
    let v = chars_of(s);
    let mut i: usize = 0;
    while i < v.len()
        invariant
            v@ == s@,
            0 <= i <= v@.len(),
            forall|j: int| 0 <= j < i ==> !is_whitespace(#[trigger] v@[j]),
        decreases v.len() - i,
    {
        if char_is_whitespace(v[i]) {
            return true;
        }
        i += 1;
    }
    false
}

/// Section and key of `section.key`; leading whitespace does not count, other
/// whitespace is an error, and so is an empty part. `arg` stands in errors.
pub open spec fn section_and_key(raw: Text, arg: Text) -> Result<
    (Text, Text),
    ConfigArgumentError,
> {
    match split_once(raw, "."@) {
        None => Err(ConfigArgumentError::NoSectionDotSeparator(arg)),
        Some((section, key)) => if has_whitespace(trim_start(section)) || has_whitespace(key) {
            Err(ConfigArgumentError::WhitespaceInKeyOrValue(arg))
        } else if trim_start(section).len() == 0 || key.len() == 0 {
            Err(ConfigArgumentError::MissingData(arg))
        } else {
            Ok((trim_start(section), key))
        },
    }
}

/// Section and key of `section.key`; errors name `raw_arg_in_err` where it is
/// given.
pub fn parse_config_section_and_key(
    raw_section_and_key: &str,
    raw_arg_in_err: Option<&str>,
) -> (r: Result<ConfigSectionAndKey, ConfigArgumentParseError>)
    ensures
        result_view(r) == section_and_key(
            raw_section_and_key@,
            match raw_arg_in_err.deep_view() {
                Some(arg) => arg,
                None => raw_section_and_key@,
            },
        ),
{
    let raw_arg = match raw_arg_in_err {
        Some(arg) => arg,
        None => raw_section_and_key,
    };
    let (raw_section, raw_key) = match split_once_of(raw_section_and_key, ".") {
        Some(parts) => parts,
        None => {
            return Err(ConfigArgumentParseError::NoSectionDotSeparator(raw_arg.to_owned()));
        },
    };
    let section = trim_start_of(raw_section);
    if contains_whitespace(section) || contains_whitespace(raw_key) {
        return Err(ConfigArgumentParseError::WhitespaceInKeyOrValue(raw_arg.to_owned()));
    }
    if section.is_empty() || raw_key.is_empty() {
        return Err(ConfigArgumentParseError::MissingData(raw_arg.to_owned()));
    }
    Ok(ConfigSectionAndKey { section: section.to_owned(), key: raw_key.to_owned() })
}

/// What a value resolves to.
#[derive(Debug, PartialEq, Eq)]
pub enum ResolvedValue {
    /// Not resolved yet.
    Unknown,
    /// The raw value itself.
    Literal,
    /// Another text.
    Resolved(String),
}

/// The model of [`ResolvedValue`].
pub enum ResolvedText {
    Unknown,
    Literal,
    Resolved(Text),
}

impl DeepView for ResolvedValue {
    type V = ResolvedText;

    open spec fn deep_view(&self) -> ResolvedText {
        match self {
            ResolvedValue::Unknown => ResolvedText::Unknown,
            ResolvedValue::Literal => ResolvedText::Literal,
            ResolvedValue::Resolved(s) => ResolvedText::Resolved(s@),
        }
    }
}

impl Duplicate for ResolvedValue {
    fn duplicate(&self) -> (r: Self) {
        match self {
            ResolvedValue::Unknown => ResolvedValue::Unknown,
            ResolvedValue::Literal => ResolvedValue::Literal,
            ResolvedValue::Resolved(s) => ResolvedValue::Resolved(s.clone()),
        }
    }
}

/// A configuration file, and where it was included from.
#[derive(Debug, PartialEq, Eq)]
pub struct ConfigFileLocation {
    pub path: String,
    pub include_source: Option<Box<Location>>,
}

/// A line of a configuration file.
#[derive(Debug, PartialEq, Eq)]
pub struct ConfigFileLocationWithLine {
    pub source_file: Box<ConfigFileLocation>,
    pub line: usize,
}

/// Where a value was set.
#[derive(Debug, PartialEq, Eq)]
pub enum Location {
    File(ConfigFileLocationWithLine),
    CommandLineArgument,
}

/// One place: a line of a file, or the command line.
pub enum Place {
    File(Text, usize),
    CommandLineArgument,
}

/// A place, then the place it was included from, and so on.
pub open spec fn places(l: Location) -> Seq<Place>
    decreases l,
{
    match l {
        Location::File(file) => seq![Place::File(file.source_file.path@, file.line)] + (
        match file.source_file.include_source {
            Some(from) => places(*from),
            None => seq![],
        }),
        Location::CommandLineArgument => seq![Place::CommandLineArgument],
    }
}

impl DeepView for Location {
    type V = Seq<Place>;

    open spec fn deep_view(&self) -> Seq<Place> {
        places(*self)
    }
}

fn copy_location(l: &Location) -> (r: Location)
    ensures
        places(r) == places(*l),
    decreases *l,
{
    match l {
        Location::File(file) => {
            let include_source: Option<Box<Location>> = match &file.source_file.include_source {
                Some(from) => Some(Box::new(copy_location(from))),
                None => None,
            };
            Location::File(
                ConfigFileLocationWithLine {
                    source_file: Box::new(
                        ConfigFileLocation { path: file.source_file.path.clone(), include_source },
                    ),
                    line: file.line,
                },
            )
        },
        Location::CommandLineArgument => Location::CommandLineArgument,
    }
}

impl Duplicate for Location {
    fn duplicate(&self) -> (r: Self) {
        copy_location(self)
    }
}

/// One place, for display.
#[derive(Debug, PartialEq, Eq)]
pub enum LegacyBuckConfigLocation<'a> {
    File(&'a str, usize),
    CommandLineArgument,
}

impl<'a> DeepView for LegacyBuckConfigLocation<'a> {
    type V = Place;

    open spec fn deep_view(&self) -> Place {
        match self {
            LegacyBuckConfigLocation::File(file, line) => Place::File(file@, *line),
            LegacyBuckConfigLocation::CommandLineArgument => Place::CommandLineArgument,
        }
    }
}

impl Place {
    /// The place in words.
    pub open spec fn text(self) -> Text {
        match self {
            Place::File(file, line) => "at "@ + file + ":"@ + nat_text(line as nat),
            Place::CommandLineArgument => "on the command line"@,
        }
    }
}

impl<'a> LegacyBuckConfigLocation<'a> {
    /// The place in words.
    pub fn display(&self) -> (r: String)
        ensures
            r@ == self.deep_view().text(),
    {
        match self {
            LegacyBuckConfigLocation::File(file, line) => {
                let mut text = concat3("at ", file, ":");
                text.append(decimal(*line as u128).as_str());
                text
            },
            LegacyBuckConfigLocation::CommandLineArgument => "on the command line".to_owned(),
        }
    }
}

impl Location {
    /// The place itself.
    pub fn as_legacy_buck_config_location<'a>(&'a self) -> (r: LegacyBuckConfigLocation<'a>)
        ensures
            r.deep_view() == self.deep_view()[0],
    {
        match self {
            Location::File(file) => {
                LegacyBuckConfigLocation::File(file.source_file.path.as_str(), file.line)
            },
            Location::CommandLineArgument => LegacyBuckConfigLocation::CommandLineArgument,
        }
    }
}

/// A value: as written, as resolved, and where it was set.
#[derive(Debug, PartialEq, Eq)]
pub struct ConfigValue {
    pub raw_value: String,
    pub resolved_value: ResolvedValue,
    pub source: Location,
}

/// The model of [`ConfigValue`].
pub struct ConfigValueModel {
    pub raw_value: Text,
    pub resolved_value: ResolvedText,
    pub source: Seq<Place>,
}

impl DeepView for ConfigValue {
    type V = ConfigValueModel;

    open spec fn deep_view(&self) -> ConfigValueModel {
        ConfigValueModel {
            raw_value: self.raw_value@,
            resolved_value: self.resolved_value.deep_view(),
            source: self.source.deep_view(),
        }
    }
}

impl Duplicate for ConfigValue {
    fn duplicate(&self) -> (r: Self) {
        ConfigValue {
            raw_value: self.raw_value.clone(),
            resolved_value: self.resolved_value.duplicate(),
            source: self.source.duplicate(),
        }
    }
}

impl ConfigValueModel {
    /// The value has been resolved.
    pub open spec fn is_resolved(self) -> bool {
        !(self.resolved_value is Unknown)
    }

    /// The value that counts.
    pub open spec fn text(self) -> Text {
        match self.resolved_value {
            ResolvedText::Resolved(s) => s,
            _ => self.raw_value,
        }
    }
}

impl ConfigValue {
    /// A value read from a file, not resolved yet.
    pub fn new_raw(source: ConfigFileLocationWithLine, value: String) -> (r: Self)
        ensures
            r.deep_view() == (ConfigValueModel {
                raw_value: value@,
                resolved_value: ResolvedText::Unknown,
                source: places(Location::File(source)),
            }),
    {
        ConfigValue {
            raw_value: value,
            resolved_value: ResolvedValue::Unknown,
            source: Location::File(source),
        }
    }

    /// A value from the command line, not resolved yet.
    pub fn new_raw_arg(raw_value: String) -> (r: Self)
        ensures
            r.deep_view() == (ConfigValueModel {
                raw_value: raw_value@,
                resolved_value: ResolvedText::Unknown,
                source: seq![Place::CommandLineArgument],
            }),
    {
        ConfigValue {
            raw_value,
            resolved_value: ResolvedValue::Unknown,
            source: Location::CommandLineArgument,
        }
    }

    /// The value as written.
    pub fn raw_value(&self) -> (r: &str)
        ensures
            r@ == self.deep_view().raw_value,
    {
        self.raw_value.as_str()
    }

    /// The value that counts.
    pub fn as_str(&self) -> (r: &str)
        requires
            self.deep_view().is_resolved(),
        ensures
            r@ == self.deep_view().text(),
    {
        match &self.resolved_value {
            ResolvedValue::Resolved(s) => s.as_str(),
            _ => self.raw_value.as_str(),
        }
    }
}

/// A value in a configuration.
#[derive(Debug)]
pub struct LegacyBuckConfigValue<'a> {
    pub value: &'a ConfigValue,
}

impl<'a> LegacyBuckConfigValue<'a> {
    /// The value that counts.
    pub fn as_str(&self) -> (r: &'a str)
        requires
            self.value.deep_view().is_resolved(),
        ensures
            r@ == self.value.deep_view().text(),
    {
        self.value.as_str()
    }

    /// The value as written.
    pub fn raw_value(&self) -> (r: &str)
        ensures
            r@ == self.value.deep_view().raw_value,
    {
        self.value.raw_value()
    }

    /// The place where the value was set.
    pub fn location(&self) -> (r: LegacyBuckConfigLocation<'_>)
        ensures
            r.deep_view() == self.value.deep_view().source[0],
    {
        self.value.source.as_legacy_buck_config_location()
    }

    /// The line where the value was set, then the line that includes that file,
    /// and so on; the command line does not count.
    pub fn location_stack(&self) -> (r: Vec<LegacyBuckConfigLocation<'_>>)
        ensures
            r.deep_view() == file_places(self.value.deep_view().source),
    {
        let mut stack: Vec<LegacyBuckConfigLocation<'_>> = Vec::new();
        let mut location: &Location = &self.value.source;
        assert(stack.deep_view() + file_places(places(*location)) =~= file_places(
            places(*location),
        ));
        loop
            invariant
                stack.deep_view() + file_places(places(*location)) =~= file_places(
                    self.value.deep_view().source,
                ),
            decreases *location,
        {
            match location {
                Location::File(file) => {
                    let ghost before = stack.deep_view();
                    let ghost place = Place::File(file.source_file.path@, file.line);
                    stack.push(
                        LegacyBuckConfigLocation::File(file.source_file.path.as_str(), file.line),
                    );
                    assert(stack.deep_view() =~= before.push(place));
                    match &file.source_file.include_source {
                        Some(from) => {
                            proof {
                                let rest = places(**from);
                                lemma_file_places_cons(place, rest);
                                assert(before + (seq![place] + file_places(rest))
                                    =~= stack.deep_view() + file_places(rest));
                            }
                            location = from;
                        },
                        None => {
                            proof {
                                let none: Seq<Place> = seq![];
                                lemma_file_places_cons(place, none);
                                assert(seq![place] + none =~= places(*location));
                                assert(before + (seq![place] + file_places(none))
                                    =~= stack.deep_view());
                            }
                            return stack;
                        },
                    }
                },
                Location::CommandLineArgument => {
                    proof {
                        reveal_with_fuel(file_places, 2);
                        let all = places(*location);
                        assert(all.drop_last() =~= seq![]);
                        assert(file_places(all) =~= seq![]);
                    }
                    assert(stack.deep_view() + seq![] =~= stack.deep_view());
                    return stack;
                },
            }
        }
    }
}

/// The places that are lines of files.
pub open spec fn file_places(all: Seq<Place>) -> Seq<Place>
    decreases all.len(),
{
    if all.len() == 0 {
        seq![]
    } else if all.last() is File {
        file_places(all.drop_last()).push(all.last())
    } else {
        file_places(all.drop_last())
    }
}

proof fn lemma_file_places_cons(place: Place, rest: Seq<Place>)
    requires
        place is File,
    ensures
        file_places(seq![place] + rest) == seq![place] + file_places(rest),
    decreases rest.len(),
{
    let all = seq![place] + rest;
    if rest.len() == 0 {
        reveal_with_fuel(file_places, 2);
        assert(all =~= seq![place]);
        assert(all.drop_last() =~= seq![]);
        assert(file_places(all) =~= seq![place]);
        assert(seq![place] + file_places(rest) =~= seq![place]);
    } else {
        lemma_file_places_cons(place, rest.drop_last());
        assert(all.drop_last() =~= seq![place] + rest.drop_last());
        assert(all.last() == rest.last());
        assert(file_places(all) =~= seq![place] + file_places(rest));
    }
}

/// A pair `section.key` without whitespace is read as its section and its key; the section
/// ends at the first dot.
pub proof fn law_section_and_key(section: Text, key: Text, arg: Text)
    requires
        section.len() > 0,
        key.len() > 0,
        !section.contains('.'),
        forall|i: int| 0 <= i < section.len() ==> !is_whitespace(#[trigger] section[i]),
        forall|i: int| 0 <= i < key.len() ==> !is_whitespace(#[trigger] key[i]),
    ensures
        section_and_key(section + "."@ + key, arg) == Ok::<(Text, Text), ConfigArgumentError>(
            (section, key),
        ),
        section_and_key(section, arg) is Err,
{
    reveal_strlit(".");
    assert("."@ =~= seq!['.']);
    lemma_split_at_char(section, '.', key);
    assert(trim_start(section) == section);
}

} // verus!
