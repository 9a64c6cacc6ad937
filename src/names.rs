//! Bounded names: file names (a single path component) and paths, as they
//! are used for every shared artifact.

use vstd::prelude::*;

verus! {

/// The longest file name or path, in bytes.
pub const MAX_NAME_LENGTH: usize = 255;

/// Why a byte string was refused as a file name or a path.
#[derive(PartialEq, Eq, Structural, Clone, Copy, Debug)]
pub enum SemanticStringError {
    InvalidContent,
    ExceedsMaximumLength,
}

/// A byte that may stand in a path: anything but the terminating zero.
pub open spec fn is_path_byte(b: u8) -> bool {
    b != 0u8
}

/// A byte that may stand in a file name: no zero and no separator `/`.
pub open spec fn is_file_name_byte(b: u8) -> bool {
    b != 0u8 && b != 47u8
}

/// A file name: one to `MAX_NAME_LENGTH` bytes, no zero, no `/`, and neither
/// `.` nor `..`.
pub open spec fn is_valid_file_name(s: Seq<u8>) -> bool {
    &&& 0 < s.len() <= MAX_NAME_LENGTH
    &&& forall|i: int| 0 <= i < s.len() ==> is_file_name_byte(#[trigger] s[i])
    &&& s != seq![46u8]
    &&& s != seq![46u8, 46u8]
}

/// A path: at most `MAX_NAME_LENGTH` bytes, none of them zero.
pub open spec fn is_valid_path(s: Seq<u8>) -> bool {
    &&& s.len() <= MAX_NAME_LENGTH
    &&& forall|i: int| 0 <= i < s.len() ==> is_path_byte(#[trigger] s[i])
}

/// The error that a refused file name gets.
pub open spec fn file_name_error(s: Seq<u8>) -> SemanticStringError {
    if s.len() > MAX_NAME_LENGTH {
        SemanticStringError::ExceedsMaximumLength
    } else {
        SemanticStringError::InvalidContent
    }
}

/// Whether every byte of `value` satisfies `is_file_name_byte` (`file`) or
/// `is_path_byte` (not `file`).
fn all_bytes_allowed(value: &[u8], file: bool) -> (r: bool)
    ensures
        file ==> r == (forall|i: int| 0 <= i < value@.len() ==> is_file_name_byte(#[trigger] value@[i])),
        !file ==> r == (forall|i: int| 0 <= i < value@.len() ==> is_path_byte(#[trigger] value@[i])),
{
    let mut i: usize = 0;
    while i < value.len()
        invariant
            i <= value@.len(),
            file ==> forall|j: int| 0 <= j < i ==> is_file_name_byte(#[trigger] value@[j]),
            !file ==> forall|j: int| 0 <= j < i ==> is_path_byte(#[trigger] value@[j]),
        decreases value@.len() - i,
    {
        let b = value[i];
        if b == 0u8 || (file && b == 47u8) {
            return false;
        }
        i = i + 1;
    }
    true
}

/// Copies a byte slice into a new vector.
pub fn bytes_to_vec(value: &[u8]) -> (r: Vec<u8>)
    ensures
        r@ == value@,
{
    let mut r: Vec<u8> = Vec::new();
    let mut i: usize = 0;
    while i < value.len()
        invariant
            i <= value@.len(),
            r@ == value@.subrange(0, i as int),
        decreases value@.len() - i,
    {
        r.push(value[i]);
        i = i + 1;
    }
    assert(r@ =~= value@);
    r
}

/// Whether two byte sequences are equal.
pub fn bytes_equal(a: &[u8], b: &[u8]) -> (r: bool)
    ensures
        r == (a@ == b@),
{
    if a.len() != b.len() {
        return false;
    }
    let mut i: usize = 0;
    while i < a.len()
        invariant
            i <= a@.len(),
            a@.len() == b@.len(),
            forall|j: int| 0 <= j < i ==> a@[j] == b@[j],
        decreases a@.len() - i,
    {
        if a[i] != b[i] {
            return false;
        }
        i = i + 1;
    }
    assert(a@ =~= b@);
    true
}

/// Appends `tail` to `v`.
pub fn append_bytes(v: &mut Vec<u8>, tail: &[u8])
    ensures
        final(v)@ == old(v)@ + tail@,
{
    let mut i: usize = 0;
    while i < tail.len()
        invariant
            i <= tail@.len(),
            v@ == old(v)@ + tail@.subrange(0, i as int),
        decreases tail@.len() - i,
    {
        v.push(tail[i]);
        i = i + 1;
    }
    assert(tail@.subrange(0, tail@.len() as int) =~= tail@);
}

/// A validated file name.
#[derive(Debug, PartialEq, Eq)]
pub struct FileName {
    bytes: Vec<u8>,
}

impl View for FileName {
    type V = Seq<u8>;

    closed spec fn view(&self) -> Seq<u8> {
        self.bytes@
    }
}

impl Clone for FileName {
    fn clone(&self) -> (r: Self)
        ensures
            r@ == self@,
    {
        FileName { bytes: bytes_to_vec(self.bytes.as_slice()) }
    }
}

impl FileName {
    /// The type's invariant: the bytes form a valid file name.
    pub open spec fn wf(&self) -> bool {
        is_valid_file_name(self@)
    }

    /// Validates `value` as a file name.
    pub fn new(value: &[u8]) -> (r: Result<FileName, SemanticStringError>)
        ensures
            is_valid_file_name(value@) <==> r is Ok,
            r matches Ok(n) ==> n@ == value@ && n.wf(),
            r matches Err(e) ==> e == file_name_error(value@),
    {
        if value.len() > MAX_NAME_LENGTH {
            return Err(SemanticStringError::ExceedsMaximumLength);
        }
        if value.len() == 0 || !all_bytes_allowed(value, true) {
            return Err(SemanticStringError::InvalidContent);
        }
        if value.len() == 1 && value[0] == 46u8 {
            assert(value@ =~= seq![46u8]);
            return Err(SemanticStringError::InvalidContent);
        }
        if value.len() == 2 && value[0] == 46u8 && value[1] == 46u8 {
            assert(value@ =~= seq![46u8, 46u8]);
            return Err(SemanticStringError::InvalidContent);
        }
        assert(value@ != seq![46u8]) by {
            if value@.len() == 1 {
                assert(value@[0] == seq![46u8][0] ==> value@ =~= seq![46u8]);
            }
        }
        assert(value@ != seq![46u8, 46u8]) by {
            if value@ == seq![46u8, 46u8] {
                assert(value@[0] == 46u8 && value@[1] == 46u8);
            }
        }
        Ok(FileName { bytes: bytes_to_vec(value) })
    }

    /// A file name from bytes that are known to form one.
    pub fn from_valid_bytes(bytes: Vec<u8>) -> (r: FileName)
        requires
            is_valid_file_name(bytes@),
        ensures
            r@ == bytes@,
            r.wf(),
    {
        FileName { bytes }
    }

    pub fn as_bytes(&self) -> (r: &[u8])
        ensures
            r@ == self@,
    {
        self.bytes.as_slice()
    }

    pub fn len(&self) -> (r: usize)
        ensures
            r == self@.len(),
    {
        self.bytes.len()
    }
}

/// A validated path.
#[derive(Debug, PartialEq, Eq)]
pub struct Path {
    bytes: Vec<u8>,
}

impl View for Path {
    type V = Seq<u8>;

    closed spec fn view(&self) -> Seq<u8> {
        self.bytes@
    }
}

impl Clone for Path {
    fn clone(&self) -> (r: Self)
        ensures
            r@ == self@,
    {
        Path { bytes: bytes_to_vec(self.bytes.as_slice()) }
    }
}

impl Path {
    /// The type's invariant: the bytes form a valid path.
    pub open spec fn wf(&self) -> bool {
        is_valid_path(self@)
    }

    /// Validates `value` as a path.
    pub fn new(value: &[u8]) -> (r: Result<Path, SemanticStringError>)
        ensures
            is_valid_path(value@) <==> r is Ok,
            r matches Ok(p) ==> p@ == value@ && p.wf(),
            r matches Err(e) ==> e == (if value@.len() > MAX_NAME_LENGTH {
                SemanticStringError::ExceedsMaximumLength
            } else {
                SemanticStringError::InvalidContent
            }),
    {
        if value.len() > MAX_NAME_LENGTH {
            return Err(SemanticStringError::ExceedsMaximumLength);
        }
        if !all_bytes_allowed(value, false) {
            return Err(SemanticStringError::InvalidContent);
        }
        Ok(Path { bytes: bytes_to_vec(value) })
    }

    /// A path from bytes that are known to form one.
    pub fn from_valid_bytes(bytes: Vec<u8>) -> (r: Path)
        requires
            is_valid_path(bytes@),
        ensures
            r@ == bytes@,
            r.wf(),
    {
        Path { bytes }
    }

    pub fn as_bytes(&self) -> (r: &[u8])
        ensures
            r@ == self@,
    {
        self.bytes.as_slice()
    }
}

/// The bytes `v[start..end]`.
pub fn sub_bytes(v: &[u8], start: usize, end: usize) -> (r: Vec<u8>)
    requires
        start <= end <= v@.len(),
    ensures
        r@ == v@.subrange(start as int, end as int),
{
    let mut r: Vec<u8> = Vec::new();
    let mut i: usize = start;
    while i < end
        invariant
            start <= i <= end,
            end <= v@.len(),
            r@ == v@.subrange(start as int, i as int),
        decreases end - i,
    {
        r.push(v[i]);
        i = i + 1;
        assert(r@ =~= v@.subrange(start as int, i as int));
    }
    r
}

} // verus!
