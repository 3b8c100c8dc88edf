//! The values of the command line: archives and aliases, written as
//! `NAME=VALUE` and `TARGET:FORMAT`.

use crate::text::{cut_once, push_char, split_once};
use vstd::prelude::*;

verus! {

/// A text that lacks its delimiter.
#[derive(Debug)]
pub struct NameValueParseError {
    pub input: String,
    pub delimiter: char,
}

impl Clone for NameValueParseError {
    fn clone(&self) -> (copy: Self)
        ensures
            copy@ == self@,
    {
        NameValueParseError { input: self.input.clone(), delimiter: self.delimiter }
    }
}

impl View for NameValueParseError {
    type V = (Seq<char>, char);

    open spec fn view(&self) -> (Seq<char>, char) {
        (self.input@, self.delimiter)
    }
}

/// The message of the error for `input`, which lacks `delimiter`.
pub open spec fn name_value_message(input: Seq<char>, delimiter: char) -> Seq<char> {
    "unable to parse '"@ + input + "' in the format NAME"@ + seq![delimiter] + "VALUE"@
}

impl NameValueParseError {
    /// The message of the error.
    pub fn to_string(&self) -> (text: String)
        ensures
            text@ == name_value_message(self.input@, self.delimiter),
    {
        let mut text = "unable to parse '".to_owned();
        text.append(self.input.as_str());
        text.append("' in the format NAME");
        push_char(&mut text, self.delimiter);
        text.append("VALUE");
        text
    }
}

/// Cuts `input` at its first `delimiter` into a name and a value.
pub fn name_value_parse(input: &str, delimiter: char) -> (r: Result<
    (String, String),
    NameValueParseError,
>)
    ensures
        match r {
            Ok((name, value)) => split_once(input@, delimiter) == Some((name@, value@)),
            Err(e) => split_once(input@, delimiter) is None && e@ == (input@, delimiter),
        },
{
    match cut_once(input, delimiter) {
        Some((name, value)) => Ok((name, value)),
        None => Err(NameValueParseError { input: input.to_owned(), delimiter }),
    }
}

/// A target and an archive format.
#[derive(Debug)]
pub struct TargetFormat {
    pub target: String,
    pub format: String,
}

impl View for TargetFormat {
    type V = (Seq<char>, Seq<char>);

    open spec fn view(&self) -> (Seq<char>, Seq<char>) {
        (self.target@, self.format@)
    }
}

impl Clone for TargetFormat {
    fn clone(&self) -> (copy: Self)
        ensures
            copy@ == self@,
    {
        TargetFormat { target: self.target.clone(), format: self.format.clone() }
    }
}

/// What `TARGET:FORMAT` denotes, or the text and delimiter of the error.
pub open spec fn parse_target_format(input: Seq<char>) -> Result<
    (Seq<char>, Seq<char>),
    (Seq<char>, char),
> {
    match split_once(input, ':') {
        Some(parts) => Ok(parts),
        None => Err((input, ':')),
    }
}

impl TargetFormat {
    /// Reads `TARGET:FORMAT`.
    pub fn from_str(input: &str) -> (r: Result<TargetFormat, NameValueParseError>)
        ensures
            match r {
                Ok(parsed) => parse_target_format(input@) == Ok::<
                    (Seq<char>, Seq<char>),
                    (Seq<char>, char),
                >(parsed@),
                Err(e) => parse_target_format(input@) == Err::<
                    (Seq<char>, Seq<char>),
                    (Seq<char>, char),
                >(e@),
            },
    {
        match name_value_parse(input, ':') {
            Ok((target, format)) => Ok(TargetFormat { target, format }),
            Err(e) => Err(e),
        }
    }
}

impl std::str::FromStr for TargetFormat {
    type Err = NameValueParseError;

    /// Reads `TARGET:FORMAT` as [`TargetFormat::from_str`] does.
    fn from_str(input: &str) -> (r: Result<Self, Self::Err>)
        ensures
            match r {
                Ok(parsed) => parse_target_format(input@) == Ok::<
                    (Seq<char>, Seq<char>),
                    (Seq<char>, char),
                >(parsed@),
                Err(e) => parse_target_format(input@) == Err::<
                    (Seq<char>, Seq<char>),
                    (Seq<char>, char),
                >(e@),
            },
    {
        TargetFormat::from_str(input)
    }
}

/// An archive of a release: what it is for, and its file name.
#[derive(Debug)]
pub struct Archive {
    pub target_format: TargetFormat,
    pub name: String,
}

/// What an [`Archive`] holds.
pub struct ArchiveView {
    pub target: Seq<char>,
    pub format: Seq<char>,
    pub name: Seq<char>,
}

impl View for Archive {
    type V = ArchiveView;

    open spec fn view(&self) -> ArchiveView {
        ArchiveView {
            target: self.target_format.target@,
            format: self.target_format.format@,
            name: self.name@,
        }
    }
}

impl Clone for Archive {
    fn clone(&self) -> (copy: Self)
        ensures
            copy@ == self@,
    {
        Archive { target_format: self.target_format.clone(), name: self.name.clone() }
    }
}

/// What `TARGET:FORMAT=NAME` denotes, or the text and delimiter of the
/// error: the text is cut at the first `=`, then its front at the first `:`.
pub open spec fn parse_archive(input: Seq<char>) -> Result<ArchiveView, (Seq<char>, char)> {
    match split_once(input, '=') {
        Some((front, name)) => match parse_target_format(front) {
            Ok((target, format)) => Ok(ArchiveView { target, format, name }),
            Err(e) => Err(e),
        },
        None => Err((input, '=')),
    }
}

impl Archive {
    /// Reads `TARGET:FORMAT=NAME`.
    pub fn from_str(input: &str) -> (r: Result<Archive, NameValueParseError>)
        ensures
            match r {
                Ok(parsed) => parse_archive(input@) == Ok::<ArchiveView, (Seq<char>, char)>(
                    parsed@,
                ),
                Err(e) => parse_archive(input@) == Err::<ArchiveView, (Seq<char>, char)>(e@),
            },
    {
        match name_value_parse(input, '=') {
            Ok((front, name)) => match TargetFormat::from_str(front.as_str()) {
                Ok(target_format) => Ok(Archive { target_format, name }),
                Err(e) => Err(e),
            },
            Err(e) => Err(e),
        }
    }
}

impl std::str::FromStr for Archive {
    type Err = NameValueParseError;

    /// Reads `TARGET:FORMAT=NAME` as [`Archive::from_str`] does.
    fn from_str(input: &str) -> (r: Result<Self, Self::Err>)
        ensures
            match r {
                Ok(parsed) => parse_archive(input@) == Ok::<ArchiveView, (Seq<char>, char)>(
                    parsed@,
                ),
                Err(e) => parse_archive(input@) == Err::<ArchiveView, (Seq<char>, char)>(e@),
            },
    {
        Archive::from_str(input)
    }
}

/// Another name for the archive of a target and format.
#[derive(Debug)]
pub struct Alias {
    pub alias: String,
    pub target_format: TargetFormat,
}

/// What an [`Alias`] holds.
pub struct AliasView {
    pub alias: Seq<char>,
    pub target: Seq<char>,
    pub format: Seq<char>,
}

impl View for Alias {
    type V = AliasView;

    open spec fn view(&self) -> AliasView {
        AliasView {
            alias: self.alias@,
            target: self.target_format.target@,
            format: self.target_format.format@,
        }
    }
}

impl Clone for Alias {
    fn clone(&self) -> (copy: Self)
        ensures
            copy@ == self@,
    {
        Alias { alias: self.alias.clone(), target_format: self.target_format.clone() }
    }
}

/// What `ALIAS=TARGET:FORMAT` denotes, or the text and delimiter of the
/// error: the text is cut at the first `=`, then what follows at the first
/// `:`.
pub open spec fn parse_alias(input: Seq<char>) -> Result<AliasView, (Seq<char>, char)> {
    match split_once(input, '=') {
        Some((alias, behind)) => match parse_target_format(behind) {
            Ok((target, format)) => Ok(AliasView { alias, target, format }),
            Err(e) => Err(e),
        },
        None => Err((input, '=')),
    }
}

impl Alias {
    /// Reads `ALIAS=TARGET:FORMAT`.
    pub fn from_str(input: &str) -> (r: Result<Alias, NameValueParseError>)
        ensures
            match r {
                Ok(parsed) => parse_alias(input@) == Ok::<AliasView, (Seq<char>, char)>(parsed@),
                Err(e) => parse_alias(input@) == Err::<AliasView, (Seq<char>, char)>(e@),
            },
    {
        match name_value_parse(input, '=') {
            Ok((alias, behind)) => match TargetFormat::from_str(behind.as_str()) {
                Ok(target_format) => Ok(Alias { alias, target_format }),
                Err(e) => Err(e),
            },
            Err(e) => Err(e),
        }
    }
}

impl std::str::FromStr for Alias {
    type Err = NameValueParseError;

    /// Reads `ALIAS=TARGET:FORMAT` as [`Alias::from_str`] does.
    fn from_str(input: &str) -> (r: Result<Self, Self::Err>)
        ensures
            match r {
                Ok(parsed) => parse_alias(input@) == Ok::<AliasView, (Seq<char>, char)>(parsed@),
                Err(e) => parse_alias(input@) == Err::<AliasView, (Seq<char>, char)>(e@),
            },
    {
        Alias::from_str(input)
    }
}

} // verus!
