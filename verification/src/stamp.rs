use crate::error::ExportError;
use crate::path::{extension_equals, extension_is};
use crate::text::owned;
use vstd::prelude::*;

verus! {

/// What an export remembers of its source file: its length and its last
/// modification time, as seconds and nanoseconds on either side of the Unix
/// epoch.
#[derive(Clone, Copy, Debug, Eq, PartialEq, Structural)]
pub struct SourceStamp {
    pub length: u64,
    pub before_epoch: bool,
    pub seconds: u64,
    pub nanoseconds: u32,
}

impl SourceStamp {
    /// Refuses to go on when the source, read again, no longer matches the
    /// stamp taken before the export.
    pub fn verify(&self, current: &SourceStamp) -> (r: Result<(), ExportError>)
        ensures
            r is Ok <==> *self == *current,
            r matches Err(e) ==> (e matches ExportError::Failed(m)
                && m@ == "The source changed during export; nothing was published"@),
    {
        if *self != *current {
            return Err(ExportError::Failed(owned("The source changed during export; nothing was published")));
        }
        Ok(())
    }
}

/// Identity and times of an opened frame source: the volume serial number,
/// the file identifier, the length and the creation, write and change times.
#[derive(Clone, Copy, Debug, Eq, PartialEq, Structural)]
pub struct FileStamp {
    pub volume: u64,
    pub id: u128,
    pub length: u64,
    pub created: i64,
    pub written: i64,
    pub changed: i64,
}

impl FileStamp {
    /// Whether two stamps name the same file on the same volume, whatever
    /// their lengths and times.
    pub fn same_file(&self, other: &FileStamp) -> (r: bool)
        ensures
            r == (self.volume == other.volume && self.id == other.id),
    {
        self.volume == other.volume && self.id == other.id
    }
}

/// The checks that a current-frame export makes before it decodes anything:
/// the target must differ from the source, end in `.png`, and the source
/// must still be the file that the snapshot was taken from. `target_stamp`
/// is the stamp of an existing target, if there is one.
pub fn frame_export_check(
    same_path: bool,
    target: &str,
    opened: &FileStamp,
    snapshot: &FileStamp,
    target_stamp: Option<&FileStamp>,
) -> (r: Result<(), ExportError>)
    ensures
        same_path ==> r matches Err(ExportError::SameAsSource),
        !same_path && !extension_is(target@, "png"@) ==> (r matches Err(ExportError::Failed(m))
            && m@ == "Current frame export requires a PNG target"@),
        !same_path && extension_is(target@, "png"@) && *opened != *snapshot ==> (r matches Err(ExportError::Failed(m))
            && m@ == "The frame source changed; reopen it before exporting"@),
        !same_path && extension_is(target@, "png"@) && *opened == *snapshot ==> (r is Ok <==> match target_stamp {
            Some(t) => !(t.volume == snapshot.volume && t.id == snapshot.id),
            None => true,
        }),
        r is Err && !same_path && extension_is(target@, "png"@) && *opened == *snapshot ==> r matches Err(ExportError::SameAsSource),
{
    if same_path {
        return Err(ExportError::SameAsSource);
    }
    proof {
        reveal_strlit("png");
    }
    if !extension_equals(target, "png") {
        return Err(ExportError::Failed(owned("Current frame export requires a PNG target")));
    }
    if *opened != *snapshot {
        return Err(ExportError::Failed(owned("The frame source changed; reopen it before exporting")));
    }
    match target_stamp {
        Some(t) => {
            if t.same_file(snapshot) {
                return Err(ExportError::SameAsSource);
            }
        },
        None => {},
    }
    Ok(())
}

/// Whether a lease still holds: the file at the source path and the file
/// held open both keep the stamp taken when the lease was opened.
pub fn lease_holds(at_path: &FileStamp, held: &FileStamp, leased: &FileStamp) -> (r: bool)
    ensures
        r == (*at_path == *leased && *held == *leased),
{
    *at_path == *leased && *held == *leased
}

} // verus!
