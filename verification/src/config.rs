//! What one run searches for, and where.

use vstd::prelude::*;

verus! {

/// Where the lines come from.
pub enum ReadMode<'a> {
    /// The file at this path.
    File(&'a str),
    /// Standard input.
    Stream(),
}

/// What a `ReadMode` stands for.
pub enum SourceModel {
    File(Seq<char>),
    Stream,
}

impl<'a> View for ReadMode<'a> {
    type V = SourceModel;

    open spec fn view(&self) -> SourceModel {
        match self {
            ReadMode::File(path) => SourceModel::File(path@),
            ReadMode::Stream() => SourceModel::Stream,
        }
    }
}

/// What a `Config` stands for.
pub struct ConfigModel {
    pub query: Seq<char>,
    pub ignore_case: bool,
    pub source: SourceModel,
}

/// The settings of one run. A value is built once and never changed; building
/// it checks nothing and opens nothing.
pub struct Config<'a> {
    query: &'a str,
    ignore_case: bool,
    read_mode: ReadMode<'a>,
}

impl<'a> View for Config<'a> {
    type V = ConfigModel;

    closed spec fn view(&self) -> ConfigModel {
        ConfigModel {
            query: self.query@,
            ignore_case: self.ignore_case,
            source: self.read_mode@,
        }
    }
}

impl<'a> Config<'a> {
    /// A search in the file at `file_name`; the same as `from_file`.
    pub fn new(query: &'a str, file_name: &'a str, ignore_case: bool) -> (config: Config<'a>)
        ensures
            config@ == (ConfigModel {
                query: query@,
                ignore_case,
                source: SourceModel::File(file_name@),
            }),
    {
        Config::from_file(query, file_name, ignore_case)
    }

    /// A search in the file at `file_name`. The file is not touched.
    pub fn from_file(query: &'a str, file_name: &'a str, ignore_case: bool) -> (config: Config<'a>)
        ensures
            config@ == (ConfigModel {
                query: query@,
                ignore_case,
                source: SourceModel::File(file_name@),
            }),
    {
        Config { query, read_mode: ReadMode::File(file_name), ignore_case }
    }

    /// A search in standard input.
    pub fn from_stream(query: &'a str, ignore_case: bool) -> (config: Config<'a>)
        ensures
            config@ == (ConfigModel { query: query@, ignore_case, source: SourceModel::Stream }),
    {
        Config { query, read_mode: ReadMode::Stream(), ignore_case }
    }

    /// The text to search for.
    pub fn query(&self) -> (query: &'a str)
        ensures
            query@ == self@.query,
    {
        self.query
    }

    /// Whether letter case is ignored.
    pub fn ignore_case(&self) -> (ignore_case: bool)
        ensures
            ignore_case == self@.ignore_case,
    {
        self.ignore_case
    }

    /// Where the lines come from.
    pub fn read_mode(&self) -> (read_mode: &ReadMode<'a>)
        ensures
            read_mode@ == self@.source,
    {
        &self.read_mode
    }
}

} // verus!
