//! The package version that is stamped into every dynamic storage record.

use vstd::prelude::*;

verus! {

/// Major part of the version of this library.
pub const PACKAGE_VERSION_MAJOR: u16 = 0;

/// Minor part of the version of this library.
pub const PACKAGE_VERSION_MINOR: u16 = 4;

/// Patch part of the version of this library.
pub const PACKAGE_VERSION_PATCH: u16 = 1;

/// The version word `(major << 32) | (minor << 16) | patch`.
pub open spec fn version_word(major: u16, minor: u16, patch: u16) -> u64 {
    ((major as u64) << 32u64) | ((minor as u64) << 16u64) | (patch as u64)
}

/// The major part of a version word.
pub open spec fn major_of(word: u64) -> u16 {
    ((word >> 32u64) & 0xffffu64) as u16
}

/// The minor part of a version word.
pub open spec fn minor_of(word: u64) -> u16 {
    ((word >> 16u64) & 0xffffu64) as u16
}

/// The patch part of a version word.
pub open spec fn patch_of(word: u64) -> u16 {
    (word & 0xffffu64) as u16
}

/// A semantic version packed into one 64-bit word.
#[derive(PartialEq, Eq, Structural, Clone, Copy, Debug)]
pub struct PackageVersion {
    pub value: u64,
}

impl PackageVersion {
    pub fn from_u64(value: u64) -> (r: PackageVersion)
        ensures
            r.value == value,
    {
        PackageVersion { value }
    }

    pub fn from_version(major: u16, minor: u16, patch: u16) -> (r: PackageVersion)
        ensures
            r.value == version_word(major, minor, patch),
    {
        PackageVersion { value: ((major as u64) << 32u64) | ((minor as u64) << 16u64) | (patch as u64) }
    }

    pub fn major(&self) -> (r: u16)
        ensures
            r == major_of(self.value),
    {
        ((self.value >> 32u64) & 0xffffu64) as u16
    }

    pub fn minor(&self) -> (r: u16)
        ensures
            r == minor_of(self.value),
    {
        ((self.value >> 16u64) & 0xffffu64) as u16
    }

    pub fn patch(&self) -> (r: u16)
        ensures
            r == patch_of(self.value),
    {
        (self.value & 0xffffu64) as u16
    }

    /// Whether this is the word of a record that was never finalized.
    pub fn is_unset(&self) -> (r: bool)
        ensures
            r == (self.value == 0),
    {
        self.value == 0
    }
}

/// The version of this library, as it is stamped into the records it creates.
pub fn get_package_version() -> (r: PackageVersion)
    ensures
        r.value == version_word(PACKAGE_VERSION_MAJOR, PACKAGE_VERSION_MINOR, PACKAGE_VERSION_PATCH),
        r.value != 0,
{
    let r = PackageVersion::from_version(PACKAGE_VERSION_MAJOR, PACKAGE_VERSION_MINOR, PACKAGE_VERSION_PATCH);
    proof {
        lemma_version_round_trip(PACKAGE_VERSION_MAJOR, PACKAGE_VERSION_MINOR, PACKAGE_VERSION_PATCH);
    }
    r
}

/// Packing a version and reading it back gives the three parts unchanged;
/// the word is zero only for version `0.0.0`.
pub proof fn lemma_version_round_trip(major: u16, minor: u16, patch: u16)
    ensures
        major_of(version_word(major, minor, patch)) == major,
        minor_of(version_word(major, minor, patch)) == minor,
        patch_of(version_word(major, minor, patch)) == patch,
        (version_word(major, minor, patch) == 0) == (major == 0 && minor == 0 && patch == 0),
{
    let a = major as u64;
    let b = minor as u64;
    let c = patch as u64;
    assert((((a << 32u64) | (b << 16u64) | c) >> 32u64) & 0xffffu64 == a) by (bit_vector)
        requires a <= 0xffffu64, b <= 0xffffu64, c <= 0xffffu64;
    assert((((a << 32u64) | (b << 16u64) | c) >> 16u64) & 0xffffu64 == b) by (bit_vector)
        requires a <= 0xffffu64, b <= 0xffffu64, c <= 0xffffu64;
    assert(((a << 32u64) | (b << 16u64) | c) & 0xffffu64 == c) by (bit_vector)
        requires a <= 0xffffu64, b <= 0xffffu64, c <= 0xffffu64;
    assert((((a << 32u64) | (b << 16u64) | c) == 0u64) == (a == 0u64 && b == 0u64 && c == 0u64))
        by (bit_vector)
        requires a <= 0xffffu64, b <= 0xffffu64, c <= 0xffffu64;
}

/// Two versions are equal exactly when their three parts are.
pub proof fn lemma_version_word_injective(
    major_a: u16,
    minor_a: u16,
    patch_a: u16,
    major_b: u16,
    minor_b: u16,
    patch_b: u16,
)
    ensures
        (version_word(major_a, minor_a, patch_a) == version_word(major_b, minor_b, patch_b)) == (major_a
            == major_b && minor_a == minor_b && patch_a == patch_b),
{
    lemma_version_round_trip(major_a, minor_a, patch_a);
    lemma_version_round_trip(major_b, minor_b, patch_b);
}

} // verus!
