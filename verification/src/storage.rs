//! Storage-side decisions for multipart uploads: which storage mode an
//! upload uses, how chunks are named, and how they are joined into the file
//! (in the order of their offsets).
use vstd::prelude::*;
use crate::text::{chars_of, format_i64, push_char, push_chars, signed_decimal};

verus! {

broadcast use vstd::seq_lib::group_to_multiset_ensures;

/// One chunk of an upload as the storage sees it.
#[derive(Debug)]
pub struct UploadPart {
    pub part_number: i32,
    pub etag: Option<String>,
    pub size: i64,
    pub start_byte: i64,
}

impl Clone for UploadPart {
    fn clone(&self) -> (res: Self)
        ensures
            res == *self,
    {
        UploadPart {
            part_number: self.part_number,
            etag: crate::db::clone_opt_string(&self.etag),
            size: self.size,
            start_byte: self.start_byte,
        }
    }
}

/// Where files are kept.
#[derive(Clone, Copy, PartialEq, Eq, Debug)]
pub enum StorageKind {
    /// A directory on the local file system: chunks are separate files.
    Local,
    /// An S3 bucket: chunks are parts of an S3 multipart upload.
    S3,
}

/// How a multipart operation proceeds.
#[derive(Debug)]
pub enum MultipartMode {
    /// Chunks are files next to the final file.
    Local,
    /// Chunks are parts of the S3 multipart upload with this id.
    S3(String),
}

/// Why a storage operation cannot proceed.
#[derive(Clone, Copy, PartialEq, Eq, Debug)]
pub enum StorageError {
    /// The upload's S3 id does not fit the storage: an S3 storage needs one, a
    /// local storage has none.
    InvalidConfiguration,
}

/// The abstract content of a multipart mode.
pub enum ModeView {
    Local,
    S3(Seq<char>),
}

impl View for MultipartMode {
    type V = ModeView;

    open spec fn view(&self) -> ModeView {
        match self {
            MultipartMode::Local => ModeView::Local,
            MultipartMode::S3(id) => ModeView::S3(id@),
        }
    }
}

/// Whether a new upload needs an S3 multipart upload (only S3 storage does).
pub fn needs_multipart_upload(kind: StorageKind) -> (res: bool)
    ensures
        res == (kind == StorageKind::S3),
{
    match kind {
        StorageKind::Local => false,
        StorageKind::S3 => true,
    }
}

/// The mode of a chunk operation: local storage with no S3 id, or S3
/// storage with one; any other combination is refused.
pub fn multipart_mode(kind: StorageKind, upload_id: &Option<String>) -> (res: Result<MultipartMode, StorageError>)
    ensures
        match (kind, *upload_id) {
            (StorageKind::Local, None) => res matches Ok(m) && m@ == ModeView::Local,
            (StorageKind::S3, Some(id)) => res matches Ok(m) && m@ == ModeView::S3(id@),
            _ => res == Err::<MultipartMode, StorageError>(StorageError::InvalidConfiguration),
        },
{
    match (kind, upload_id) {
        (StorageKind::Local, None) => Ok(MultipartMode::Local),
        (StorageKind::S3, Some(id)) => Ok(MultipartMode::S3(id.clone())),
        _ => Err(StorageError::InvalidConfiguration),
    }
}

/// The name of the object that holds chunk `part_number` of file `key`:
/// `{key}-{part_number}`.
pub open spec fn part_object_name(key: Seq<char>, part_number: i32) -> Seq<char> {
    key + seq!['-'] + signed_decimal(part_number as int)
}

/// Builds the name of the object that holds a chunk.
pub fn part_object(key: &str, part_number: i32) -> (res: String)
    ensures
        res@ == part_object_name(key@, part_number),
{
    let mut name = String::new();
    push_chars(&mut name, &chars_of(key));
    push_char(&mut name, '-');
    let number = format_i64(part_number as i64);
    push_chars(&mut name, &chars_of(number.as_str()));
    assert(name@ =~= part_object_name(key@, part_number));
    name
}

/// Whether no two chunks start at the same offset.
pub open spec fn distinct_offsets(s: Seq<UploadPart>) -> bool {
    forall|i: int, j: int|
        0 <= i < s.len() && 0 <= j < s.len() && i != j ==> #[trigger] s[i].start_byte
            != #[trigger] s[j].start_byte
}

/// Whether chunks are in strictly ascending order of their offsets: the
/// order in which they make up the file.
pub open spec fn in_file_order(s: Seq<UploadPart>) -> bool {
    forall|i: int, j: int| 0 <= i < j < s.len() ==> #[trigger] s[i].start_byte < #[trigger] s[j].start_byte
}

/// Whether two chunk sequences hold the same chunks, each as often.
pub open spec fn same_chunks(a: Seq<UploadPart>, b: Seq<UploadPart>) -> bool {
    a.to_multiset() == b.to_multiset()
}

/// The chunks in file order (ascending offsets).
pub fn sort_parts(parts: Vec<UploadPart>) -> (res: Vec<UploadPart>)
    requires
        distinct_offsets(parts@),
    ensures
        in_file_order(res@),
        same_chunks(res@, parts@),
{
    let mut res: Vec<UploadPart> = Vec::new();
    let mut i: usize = 0;
    assert(parts@.take(0) =~= Seq::<UploadPart>::empty());
    while i < parts.len()
        invariant
            i <= parts@.len(),
            distinct_offsets(parts@),
            in_file_order(res@),
            res@.to_multiset() == parts@.take(i as int).to_multiset(),
            forall|k: int|
                0 <= k < res@.len() ==> exists|m: int|
                    0 <= m < i && (#[trigger] res@[k]).start_byte == parts@[m].start_byte,
        decreases parts@.len() - i,
    {
        let x = parts[i].clone();
        let mut pos: usize = 0;
        while pos < res.len() && res[pos].start_byte < x.start_byte
            invariant
                pos <= res@.len(),
                forall|j: int| 0 <= j < pos ==> #[trigger] res@[j].start_byte < x.start_byte,
            decreases res@.len() - pos,
        {
            pos = pos + 1;
        }
        let ghost before = res@;
        proof {
            assert forall|j: int| pos <= j < before.len() implies x.start_byte < #[trigger] before[j].start_byte by {
                let m = choose|m: int| 0 <= m < i && before[j].start_byte == parts@[m].start_byte;
                assert(parts@[m].start_byte != parts@[i as int].start_byte);
                assert(before[pos as int].start_byte <= before[j].start_byte || j == pos);
            }
        }
        res.insert(pos, x);
        proof {
            assert(res@ == before.insert(pos as int, x));
            assert forall|a: int, b: int| 0 <= a < b < res@.len() implies #[trigger] res@[a].start_byte < #[trigger] res@[b].start_byte by {
                if b < pos {
                } else if b == pos {
                    assert(res@[a] == before[a]);
                } else if a < pos {
                    assert(res@[a] == before[a]);
                    assert(res@[b] == before[b - 1]);
                } else if a == pos {
                    assert(res@[b] == before[b - 1]);
                } else {
                    assert(res@[a] == before[a - 1]);
                    assert(res@[b] == before[b - 1]);
                }
            }
            assert forall|k: int| 0 <= k < res@.len() implies exists|m: int|
                0 <= m < i + 1 && (#[trigger] res@[k]).start_byte == parts@[m].start_byte by {
                if k < pos {
                    assert(res@[k] == before[k]);
                } else if k == pos {
                    assert(res@[k].start_byte == parts@[i as int].start_byte);
                } else {
                    assert(res@[k] == before[k - 1]);
                }
            }
            assert(parts@.take(i + 1) =~= parts@.take(i as int).push(parts@[i as int]));
        }
        i = i + 1;
    }
    assert(parts@.take(i as int) =~= parts@);
    res
}

/// One step of assembling a file: the chunk object to append, and the
/// number of the part it becomes (S3 joins the parts of a multipart upload
/// in ascending part number).
#[derive(Debug)]
pub struct AssemblyStep {
    pub source: String,
    pub part_number: u64,
}

/// The steps that assemble file `key` from its chunks listed in file order:
/// the k-th chunk's object becomes part k + 1, so that joining by part
/// number joins the chunks in the listed order.
pub fn assembly_steps(key: &str, parts: &Vec<UploadPart>) -> (res: Vec<AssemblyStep>)
    ensures
        res@.len() == parts@.len(),
        forall|k: int|
            0 <= k < res@.len() ==> {
                &&& (#[trigger] res@[k]).source@ == part_object_name(key@, parts@[k].part_number)
                &&& res@[k].part_number == k + 1
            },
{
    let mut res: Vec<AssemblyStep> = Vec::new();
    let mut i: usize = 0;
    while i < parts.len()
        invariant
            i <= parts@.len(),
            res@.len() == i,
            forall|k: int|
                0 <= k < i ==> {
                    &&& (#[trigger] res@[k]).source@ == part_object_name(key@, parts@[k].part_number)
                    &&& res@[k].part_number == k + 1
                },
        decreases parts@.len() - i,
    {
        let n: u64 = i as u64 + 1;
        res.push(AssemblyStep { source: part_object(key, parts[i].part_number), part_number: n });
        i = i + 1;
    }
    res
}

/// Names the chunk objects of file `key` for the given part numbers, in order.
pub fn part_objects(key: &str, part_numbers: &Vec<i32>) -> (res: Vec<String>)
    ensures
        res@.len() == part_numbers@.len(),
        forall|k: int| 0 <= k < res@.len() ==> #[trigger] res@[k]@ == part_object_name(key@, part_numbers@[k]),
{
    let mut res: Vec<String> = Vec::new();
    let mut i: usize = 0;
    while i < part_numbers.len()
        invariant
            i <= part_numbers@.len(),
            res@.len() == i,
            forall|k: int| 0 <= k < i ==> #[trigger] res@[k]@ == part_object_name(key@, part_numbers@[k]),
        decreases part_numbers@.len() - i,
    {
        res.push(part_object(key, part_numbers[i]));
        i = i + 1;
    }
    res
}

} // verus!
