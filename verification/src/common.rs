//! Configuration and diagnostic types shared by the preprocessor stages.

use vstd::prelude::*;

verus! {

/// The C or C++ language level a run is configured for. The two families
/// are ordered internally; `Min` and `Max` are sentinels below and above
/// every real standard.
#[derive(Copy, Clone, Debug, PartialEq)]
pub enum CppVersion {
    Min,
    Cpp98,
    Cpp03,
    Cpp11,
    Cpp14,
    Cpp17,
    Cpp20,
    Max,
}

#[derive(Copy, Clone, Debug, PartialEq)]
pub enum CVersion {
    Min,
    C89,
    C99,
    C11,
    C18,
    Max,
}

/// The language standard in use: one member of either family.
#[derive(Copy, Clone, Debug, PartialEq)]
pub enum Version {
    C(CVersion),
    Cpp(CppVersion),
}

/// Position of `v` in the total order of the C++ family.
pub open spec fn cpp_rank(v: CppVersion) -> int {
    match v {
        CppVersion::Min => 0,
        CppVersion::Cpp98 => 1,
        CppVersion::Cpp03 => 2,
        CppVersion::Cpp11 => 3,
        CppVersion::Cpp14 => 4,
        CppVersion::Cpp17 => 5,
        CppVersion::Cpp20 => 6,
        CppVersion::Max => 7,
    }
}

/// Position of `v` in the total order of the C family.
pub open spec fn c_rank(v: CVersion) -> int {
    match v {
        CVersion::Min => 0,
        CVersion::C89 => 1,
        CVersion::C99 => 2,
        CVersion::C11 => 3,
        CVersion::C18 => 4,
        CVersion::Max => 5,
    }
}

fn cpp_level(v: CppVersion) -> (r: u8)
    ensures
        r as int == cpp_rank(v),
{
    match v {
        CppVersion::Min => 0,
        CppVersion::Cpp98 => 1,
        CppVersion::Cpp03 => 2,
        CppVersion::Cpp11 => 3,
        CppVersion::Cpp14 => 4,
        CppVersion::Cpp17 => 5,
        CppVersion::Cpp20 => 6,
        CppVersion::Max => 7,
    }
}

fn c_level(v: CVersion) -> (r: u8)
    ensures
        r as int == c_rank(v),
{
    match v {
        CVersion::Min => 0,
        CVersion::C89 => 1,
        CVersion::C99 => 2,
        CVersion::C11 => 3,
        CVersion::C18 => 4,
        CVersion::Max => 5,
    }
}

impl Version {
    /// Whether this version is at or above the given bound of its own
    /// family: `cver` bounds the C family, `cppver` the C++ family.
    pub open spec fn spec_ver_ge(self, cver: CVersion, cppver: CppVersion) -> bool {
        match self {
            Version::C(v) => c_rank(v) >= c_rank(cver),
            Version::Cpp(v) => cpp_rank(v) >= cpp_rank(cppver),
        }
    }

    pub open spec fn spec_ver_le(self, cver: CVersion, cppver: CppVersion) -> bool {
        match self {
            Version::C(v) => c_rank(v) <= c_rank(cver),
            Version::Cpp(v) => cpp_rank(v) <= cpp_rank(cppver),
        }
    }

    pub open spec fn spec_ver_gr(self, cver: CVersion, cppver: CppVersion) -> bool {
        match self {
            Version::C(v) => c_rank(v) > c_rank(cver),
            Version::Cpp(v) => cpp_rank(v) > cpp_rank(cppver),
        }
    }

    pub open spec fn spec_ver_ls(self, cver: CVersion, cppver: CppVersion) -> bool {
        match self {
            Version::C(v) => c_rank(v) < c_rank(cver),
            Version::Cpp(v) => cpp_rank(v) < cpp_rank(cppver),
        }
    }

    pub fn ver_ge(&self, cver: CVersion, cppver: CppVersion) -> (r: bool)
        ensures
            r == self.spec_ver_ge(cver, cppver),
    {
        match self {
            Version::C(v) => c_level(*v) >= c_level(cver),
            Version::Cpp(v) => cpp_level(*v) >= cpp_level(cppver),
        }
    }

    pub fn ver_le(&self, cver: CVersion, cppver: CppVersion) -> (r: bool)
        ensures
            r == self.spec_ver_le(cver, cppver),
    {
        match self {
            Version::C(v) => c_level(*v) <= c_level(cver),
            Version::Cpp(v) => cpp_level(*v) <= cpp_level(cppver),
        }
    }

    pub fn ver_gr(&self, cver: CVersion, cppver: CppVersion) -> (r: bool)
        ensures
            r == self.spec_ver_gr(cver, cppver),
    {
        match self {
            Version::C(v) => c_level(*v) > c_level(cver),
            Version::Cpp(v) => cpp_level(*v) > cpp_level(cppver),
        }
    }

    pub fn ver_ls(&self, cver: CVersion, cppver: CppVersion) -> (r: bool)
        ensures
            r == self.spec_ver_ls(cver, cppver),
    {
        match self {
            Version::C(v) => c_level(*v) < c_level(cver),
            Version::Cpp(v) => cpp_level(*v) < cpp_level(cppver),
        }
    }
}

/// All the parameters the preprocessor cares about.
#[derive(Copy, Clone, Debug, PartialEq)]
pub struct Params {
    /// The language standard in use.
    pub version: Version,
    /// Warn on every trigraph sequence encountered.
    pub wtrigraphs: bool,
    /// Translate trigraph sequences (meaningful only where the version
    /// still admits them).
    pub trigraphs: bool,
}

impl Default for Params {
    /// Trigraphs are off by default, and the default standard is C11.
    fn default() -> (r: Self)
        ensures
            r.version == Version::C(CVersion::C11),
            !r.wtrigraphs,
            !r.trigraphs,
    {
        Params { trigraphs: false, wtrigraphs: false, version: Version::C(CVersion::C11) }
    }
}

pub type LineNumber = usize;
pub type CharNumber = usize;

/// A position in a named source file. Lines and columns are 1-origin and
/// count code points.
#[derive(Debug, Clone, PartialEq)]
pub struct Location {
    pub filename: String,
    pub nline: LineNumber,
    pub nchar: CharNumber,
}

/// Mathematical image of a `Location`.
#[verifier::ext_equal]
pub struct LocationModel {
    pub filename: Seq<char>,
    pub nline: int,
    pub nchar: int,
}

impl View for Location {
    type V = LocationModel;

    open spec fn view(&self) -> LocationModel {
        LocationModel { filename: self.filename@, nline: self.nline as int, nchar: self.nchar as int }
    }
}

impl Location {
    pub fn new(filename: String, nline: LineNumber, nchar: CharNumber) -> (r: Self)
        ensures
            r@.filename == filename@,
            r@.nline == nline as int,
            r@.nchar == nchar as int,
    {
        Location { filename, nline, nchar }
    }
}

/// Severity of a diagnostic.
#[derive(Copy, Clone, Debug, PartialEq)]
pub enum IssueType {
    Error,
    Warning,
    Info,
}

/// What a diagnostic reports.
#[derive(Copy, Clone, Debug, PartialEq)]
pub enum IssueDesc {
    /// A `/* ... */` comment was still open at end of input.
    MultilineCommentNotClosed,
    /// A string or character literal was not closed; the payload is the
    /// opening quote character.
    QuotationMarkNotClosed(char),
    /// A trigraph was recognized but policy left it untranslated; the
    /// payload is its third character.
    TrigraphPresentAndIgnored(char),
    /// A trigraph was translated; the payload is its third character.
    TrigraphPresent(char),
    /// The last line was unterminated, or terminated through a
    /// continuation, under a version that cares.
    FileEndMissingNewline,
    /// Trigraph translation was requested under a version that no longer
    /// admits trigraphs.
    TrigraphAndVersionConflict,
}

/// A diagnostic message. File-level conditions carry no location.
#[derive(Debug, Clone, PartialEq)]
pub struct Issue {
    pub loc: Option<Location>,
    pub itype: IssueType,
    pub desc: IssueDesc,
}

/// Mathematical image of an `Issue`.
#[verifier::ext_equal]
pub struct IssueModel {
    pub loc: Option<LocationModel>,
    pub itype: IssueType,
    pub desc: IssueDesc,
}

impl View for Issue {
    type V = IssueModel;

    open spec fn view(&self) -> IssueModel {
        IssueModel {
            loc: match self.loc {
                Some(l) => Some(l@),
                None => None,
            },
            itype: self.itype,
            desc: self.desc,
        }
    }
}

impl Issue {
    pub fn new(loc: Option<Location>, itype: IssueType, desc: IssueDesc) -> (r: Self)
        ensures
            r.loc is Some <==> loc is Some,
            loc is Some ==> r@.loc == Some(loc.unwrap()@),
            loc is None ==> r@.loc is None,
            r.itype == itype,
            r.desc == desc,
    {
        Issue { loc, itype, desc }
    }
}

} // verus!
