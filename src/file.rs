use vstd::prelude::*;
use chrono::{DateTime, Utc};
use crate::error::AppError;

verus! {

/// The last second of the year 9999, as seconds since the epoch.
pub const LAST_SECOND_OF_9999: i64 = 253402300799;

/// The UTC calendar date and time of a timestamp, as `YYYY-MM-DD HH:MM:SS`.
pub uninterp spec fn utc_date_text(secs: int) -> Seq<char>;

/// Relies on chrono's `DateTime::<Utc>::from_timestamp`, which gives a date for
/// every whole-second timestamp inside chrono's range of years (far past the
/// year 9999 on both sides of the epoch), and on its `format`, which writes it.
#[verifier::external_body]
fn date_text(secs: i64) -> (r: Option<String>)
    ensures
        0 <= secs <= LAST_SECOND_OF_9999 ==> r is Some,
        r is Some ==> r->0@ == utc_date_text(secs as int),
{
    DateTime::<Utc>::from_timestamp(secs, 0).map(|d| d.format("%Y-%m-%d %H:%M:%S").to_string())
}

/// One child of a listed directory, as read at listing time.
pub struct File {
    pub name: String,
    /// Modification time, in whole seconds since the epoch.
    pub modified: u64,
    pub size: u64,
    /// The directory the entry was found in.
    pub path: String,
    pub is_directory: bool,
    /// `modified` as a UTC date, `YYYY-MM-DD HH:MM:SS`.
    pub date_modified: String,
}

/// What was observed of one directory entry, before it becomes a `File`.
pub struct RawEntry {
    /// The entry's name, or `None` when it is not valid text.
    pub name: Option<String>,
    /// The directory the entry was found in.
    pub parent: String,
    /// Seconds since the epoch, or `None` when the modification time could
    /// not be read or lies before the epoch.
    pub modified: Option<u64>,
    pub size: u64,
    pub is_directory: bool,
}

/// The file that a successful conversion of `e` yields.
pub open spec fn converts_to(e: RawEntry, f: File) -> bool {
    &&& e.name == Some(f.name)
    &&& f.date_modified@ == utc_date_text(f.modified as int)
    &&& e.modified == Some(f.modified)
    &&& f.size == e.size
    &&& f.path == e.parent
    &&& f.is_directory == e.is_directory
}

/// The error a conversion of `e` ends in, when its name or time is missing.
pub open spec fn entry_error(e: RawEntry) -> Option<AppError> {
    if e.modified is None {
        Some(AppError::Foo)
    } else if e.name is None {
        Some(AppError::NameConversion)
    } else {
        None
    }
}

impl File {
    /// Turns an observed entry into a `File`. A missing modification time
    /// fails first, then a name that is not text; a time that cannot be
    /// given as a date fails too.
    pub fn from_entry(entry: RawEntry) -> (r: Result<File, AppError>)
        ensures
            entry_error(entry) is Some ==> r == Err::<File, AppError>(entry_error(entry)->0),
            entry_error(entry) is None && entry.modified->0 <= LAST_SECOND_OF_9999 ==> r is Ok,
            r is Ok ==> converts_to(entry, r->Ok_0),
            r is Err ==> (entry_error(entry) is Some || r == Err::<File, AppError>(AppError::Foo)),
    {
        let modified = match entry.modified {
            Some(m) => m,
            None => return Err(AppError::Foo),
        };
        let name = match entry.name {
            Some(n) => n,
            None => return Err(AppError::NameConversion),
        };
        if modified > i64::MAX as u64 {
            return Err(AppError::Foo);
        }
        let date_modified = match date_text(modified as i64) {
            Some(d) => d,
            None => return Err(AppError::Foo),
        };
        Ok(File {
            name,
            modified,
            size: entry.size,
            path: entry.parent,
            is_directory: entry.is_directory,
            date_modified,
        })
    }
}

/// Every entry can be turned into a `File`.
pub open spec fn all_convertible(entries: Seq<RawEntry>) -> bool {
    forall|i: int| 0 <= i < entries.len() ==> entry_error(#[trigger] entries[i]) is None
        && entries[i].modified->0 <= LAST_SECOND_OF_9999
}

/// The files of a directory listing, from the entries observed in order.
/// `stopped` is the error that ended the observation early, if one did.
/// Entries are converted in order and the first failure ends the listing:
/// no partial listing is ever returned. A listing that completes holds one
/// file per observed entry, no more and no fewer, in the same order.
pub fn collect_listing(entries: Vec<RawEntry>, stopped: Option<AppError>) -> (r: Result<Vec<File>, AppError>)
    ensures
        r is Ok ==> {
            &&& stopped is None
            &&& r->Ok_0@.len() == entries@.len()
            &&& forall|i: int| 0 <= i < entries@.len() ==> converts_to(entries@[i], #[trigger] r->Ok_0@[i])
        },
        forall|i: int|
            0 <= i < entries@.len() && all_convertible(entries@.subrange(0, i))
                && #[trigger] entry_error(entries@[i]) is Some ==> r == Err::<Vec<File>, AppError>(
                entry_error(entries@[i])->0),
        all_convertible(entries@) && stopped is Some ==> r == Err::<Vec<File>, AppError>(stopped->0),
        all_convertible(entries@) && stopped is None ==> r is Ok,
{
    let ghost input = entries@;
    let mut rest = entries;
    let mut files: Vec<File> = Vec::new();
    assert(input.subrange(0, input.len() as int) =~= input);
    while rest.len() > 0
        invariant
            input == entries@,
            files@.len() + rest@.len() == input.len(),
            rest@ == input.subrange(files@.len() as int, input.len() as int),
            forall|k: int| 0 <= k < files@.len() ==> converts_to(input[k], #[trigger] files@[k]),
            forall|k: int| 0 <= k < files@.len() ==> entry_error(#[trigger] input[k]) is None,
        decreases rest@.len(),
    {
        let ghost n = files@.len() as int;
        let entry = rest.remove(0);
        assert(entry == input[n]);
        assert(rest@ =~= input.subrange(n + 1, input.len() as int));
        match File::from_entry(entry) {
            Ok(f) => files.push(f),
            Err(e) => {
                proof {
                    assert forall|i: int|
                        0 <= i < input.len() && all_convertible(input.subrange(0, i))
                            && #[trigger] entry_error(input[i]) is Some implies e == entry_error(input[i])->0 by {
                        if i > n {
                            assert(input.subrange(0, i)[n] == input[n]);
                        }
                    }
                    if all_convertible(input) {
                        assert(entry_error(input[n]) is None);
                        assert(input[n].modified->0 <= LAST_SECOND_OF_9999);
                        assert(false);
                    }
                }
                return Err(e);
            },
        }
    }
    match stopped {
        Some(e) => Err(e),
        None => Ok(files),
    }
}

} // verus!
