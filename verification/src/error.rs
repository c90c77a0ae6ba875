//! The failures that loading, migrating and saving a record can end in.

use vstd::prelude::*;
use vstd::string::StringExecFns;

verus! {

/// Why an operation on a configuration failed. Each variant but the last
/// carries the message of the failure; the last carries the file name of the
/// schema that was asked for.
#[derive(Debug, PartialEq, Eq)]
pub enum Error {
    /// A file could not be read, written or locked.
    Io(String),
    /// A typed value could not be encoded as a record.
    Serialization(String),
    /// A record could not be decoded: into a typed value, or because it is
    /// not a map, or because its version is not a number that fits.
    Deserialization(String),
    /// A record could not be written out as text.
    TomlSerialization(String),
    /// A file's text could not be parsed as a record.
    TomlDeserialization(String),
    /// A migration step gave up.
    Migration(String),
    /// The schema was never registered with the store.
    UnregisteredConfig(String),
}

/// An [`Error`] with its message as a sequence of characters.
pub enum ErrorView {
    Io(Seq<char>),
    Serialization(Seq<char>),
    Deserialization(Seq<char>),
    TomlSerialization(Seq<char>),
    TomlDeserialization(Seq<char>),
    Migration(Seq<char>),
    UnregisteredConfig(Seq<char>),
}

impl View for Error {
    type V = ErrorView;

    open spec fn view(&self) -> ErrorView {
        match self {
            Error::Io(m) => ErrorView::Io(m@),
            Error::Serialization(m) => ErrorView::Serialization(m@),
            Error::Deserialization(m) => ErrorView::Deserialization(m@),
            Error::TomlSerialization(m) => ErrorView::TomlSerialization(m@),
            Error::TomlDeserialization(m) => ErrorView::TomlDeserialization(m@),
            Error::Migration(m) => ErrorView::Migration(m@),
            Error::UnregisteredConfig(m) => ErrorView::UnregisteredConfig(m@),
        }
    }
}

impl ErrorView {
    /// The words that say what kind of failure this is.
    pub open spec fn prefix(self) -> Seq<char> {
        match self {
            ErrorView::Io(_) => "I/O: "@,
            ErrorView::Serialization(_) => "Serialization: "@,
            ErrorView::Deserialization(_) => "Deserialization: "@,
            ErrorView::TomlSerialization(_) => "TOML Serialization: "@,
            ErrorView::TomlDeserialization(_) => "TOML Deserialization: "@,
            ErrorView::Migration(_) => "Migration: "@,
            ErrorView::UnregisteredConfig(_) => "Config not registered: "@,
        }
    }

    /// What the failure carries: its message, or the schema's file name.
    pub open spec fn detail(self) -> Seq<char> {
        match self {
            ErrorView::Io(m) => m,
            ErrorView::Serialization(m) => m,
            ErrorView::Deserialization(m) => m,
            ErrorView::TomlSerialization(m) => m,
            ErrorView::TomlDeserialization(m) => m,
            ErrorView::Migration(m) => m,
            ErrorView::UnregisteredConfig(m) => m,
        }
    }
}

impl Error {
    /// What the failure carries: its message, or the schema's file name.
    pub fn detail(&self) -> (s: &String)
        ensures
            s@ == self@.detail(),
    {
        match self {
            Error::Io(m) => m,
            Error::Serialization(m) => m,
            Error::Deserialization(m) => m,
            Error::TomlSerialization(m) => m,
            Error::TomlDeserialization(m) => m,
            Error::Migration(m) => m,
            Error::UnregisteredConfig(m) => m,
        }
    }

    /// The failure in one line: its kind, then what it carries.
    pub fn message(&self) -> (s: String)
        ensures
            s@ == self@.prefix() + self@.detail(),
    {
        let prefix = match self {
            Error::Io(_) => "I/O: ",
            Error::Serialization(_) => "Serialization: ",
            Error::Deserialization(_) => "Deserialization: ",
            Error::TomlSerialization(_) => "TOML Serialization: ",
            Error::TomlDeserialization(_) => "TOML Deserialization: ",
            Error::Migration(_) => "Migration: ",
            Error::UnregisteredConfig(_) => "Config not registered: ",
        };
        String::from_str(prefix).concat(self.detail().as_str())
    }
}

impl Clone for Error {
    /// A copy with the same kind and message.
    fn clone(&self) -> (copy: Error)
        ensures
            copy@ == self@,
    {
        match self {
            Error::Io(m) => Error::Io(m.clone()),
            Error::Serialization(m) => Error::Serialization(m.clone()),
            Error::Deserialization(m) => Error::Deserialization(m.clone()),
            Error::TomlSerialization(m) => Error::TomlSerialization(m.clone()),
            Error::TomlDeserialization(m) => Error::TomlDeserialization(m.clone()),
            Error::Migration(m) => Error::Migration(m.clone()),
            Error::UnregisteredConfig(m) => Error::UnregisteredConfig(m.clone()),
        }
    }
}

} // verus!
