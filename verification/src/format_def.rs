//! Definitions of the reserved genotype-field keys, per file-format
//! version.

use vstd::prelude::*;

verus! {

/// A file format version, by major and minor number.
#[derive(Clone, Copy, Debug, PartialEq, Eq, Structural)]
pub struct FileFormat {
    /// The major version.
    pub major: u32,
    /// The minor version.
    pub minor: u32,
}

impl FileFormat {
    /// Builds a version.
    pub fn new(major: u32, minor: u32) -> (r: FileFormat)
        ensures
            r.major == major,
            r.minor == minor,
    {
        FileFormat { major, minor }
    }

    /// The major version.
    pub fn major(&self) -> (r: u32)
        ensures
            r == self.major,
    {
        self.major
    }

    /// The minor version.
    pub fn minor(&self) -> (r: u32)
        ensures
            r == self.minor,
    {
        self.minor
    }
}

/// How many values a field holds per record.
#[derive(Clone, Copy, Debug, PartialEq, Eq, Structural)]
pub enum Number {
    /// A fixed count.
    Count(usize),
    /// One value per alternate allele.
    AlternateBases,
    /// One value per allele, reference included.
    ReferenceAlternateBases,
    /// One value per genotype.
    Samples,
    /// An unknown count.
    Unknown,
}

/// A genotype field value's type.
#[derive(Clone, Copy, Debug, PartialEq, Eq, Structural)]
pub enum Type {
    /// 32-bit integers.
    Integer,
    /// Floating-point numbers, carried as text at this layer.
    Float,
    /// Single characters.
    Character,
    /// Strings.
    Text,
}

/// The reserved definition of a genotype-field key, as (number, type,
/// description).
pub open spec fn spec_definition(file_format: FileFormat, key: Seq<char>) -> Option<
    (Number, Type, Seq<char>),
> {
    if file_format.major == 4 && (file_format.minor == 3 || file_format.minor == 4) {
        if key == "GT"@ {
            Some((Number::Count(1), Type::Text, "Genotype"@))
        } else if key == "DP"@ {
            Some((Number::Count(1), Type::Integer, "Read depth"@))
        } else if key == "GQ"@ {
            Some((Number::Count(1), Type::Integer, "Conditional genotype quality"@))
        } else if key == "HQ"@ {
            Some((Number::Count(2), Type::Integer, "Haplotype quality"@))
        } else if key == "GL"@ {
            Some((Number::Samples, Type::Float, "Genotype likelihoods"@))
        } else if file_format.minor == 4 && key == "LAA"@ {
            Some(
                (
                    Number::Unknown,
                    Type::Integer,
                    "Local alternate alleles"@,
                ),
            )
        } else {
            None
        }
    } else {
        None
    }
}

/// Looks up the reserved definition of a genotype-field key for a file
/// format version; versions other than 4.3 and 4.4 define none.
pub fn definition(file_format: FileFormat, key: &str) -> (r: Option<(Number, Type, &'static str)>)
    ensures
        match r {
            Some(d) => spec_definition(file_format, key@) == Some((d.0, d.1, d.2@)),
            None => spec_definition(file_format, key@) is None,
        },
{
    if file_format.major() == 4 && (file_format.minor() == 3 || file_format.minor() == 4) {
        let m = file_format.minor();
        if compare_str(key, "GT") {
            Some((Number::Count(1), Type::Text, "Genotype"))
        } else if compare_str(key, "DP") {
            Some((Number::Count(1), Type::Integer, "Read depth"))
        } else if compare_str(key, "GQ") {
            Some((Number::Count(1), Type::Integer, "Conditional genotype quality"))
        } else if compare_str(key, "HQ") {
            Some((Number::Count(2), Type::Integer, "Haplotype quality"))
        } else if compare_str(key, "GL") {
            Some((Number::Samples, Type::Float, "Genotype likelihoods"))
        } else if m == 4 && compare_str(key, "LAA") {
            Some((Number::Unknown, Type::Integer, "Local alternate alleles"))
        } else {
            None
        }
    } else {
        None
    }
}

/// Relies on str equality: two string slices compare equal exactly when
/// their characters do.
#[verifier::external_body]
fn compare_str(a: &str, b: &str) -> (r: bool)
    ensures
        r == (a@ == b@),
{
    a == b
}

} // verus!
