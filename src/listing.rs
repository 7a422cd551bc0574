use vstd::prelude::*;
use crate::error::AppError;
use crate::file::File;
use crate::sorting::{deserialize_sorting, sorting_text, sorts_to, FileSorter, SortType, SortingError};

verus! {

/// The sort parameter of a request: absent means the default ordering;
/// present, it must be one of the accepted texts.
pub open spec fn sorting_param_ok(param: Option<Seq<char>>, t: SortType) -> bool {
    match param {
        None => t is Default,
        Some(s) => s == sorting_text(t),
    }
}

/// Parses an optional sort parameter; only a present, unknown text fails.
fn sorting_from_param(param: Option<&str>) -> (r: Result<SortType, SortingError>)
    ensures
        match r {
            Ok(t) => sorting_param_ok(
                match param {
                    None => None,
                    Some(s) => Some(s@),
                },
                t,
            ),
            Err(_) => param is Some && forall|t: SortType| param->0@ != sorting_text(t),
        },
{
    match param {
        None => Ok(SortType::default()),
        Some(s) => match deserialize_sorting(s) {
            Ok(t) => Ok(t),
            Err(SortingError::InvalidFormat(e)) => Err(SortingError::InvalidFormat(e)),
        },
    }
}

/// The query of the file-list fragment.
pub struct FileListQuery {
    pub sorting: SortType,
}

/// The query of the index page.
pub struct GetIndexQuery {
    pub sorting: SortType,
}

impl FileListQuery {
    /// Reads the query from its optional `sorting` parameter.
    pub fn from_param(param: Option<&str>) -> (r: Result<FileListQuery, SortingError>)
        ensures
            match r {
                Ok(q) => sorting_param_ok(
                    match param {
                        None => None,
                        Some(s) => Some(s@),
                    },
                    q.sorting,
                ),
                Err(_) => param is Some && forall|t: SortType| param->0@ != sorting_text(t),
            },
    {
        match sorting_from_param(param) {
            Ok(sorting) => Ok(FileListQuery { sorting }),
            Err(e) => Err(e),
        }
    }
}

impl GetIndexQuery {
    /// Reads the query from its optional `sorting` parameter.
    pub fn from_param(param: Option<&str>) -> (r: Result<GetIndexQuery, SortingError>)
        ensures
            match r {
                Ok(q) => sorting_param_ok(
                    match param {
                        None => None,
                        Some(s) => Some(s@),
                    },
                    q.sorting,
                ),
                Err(_) => param is Some && forall|t: SortType| param->0@ != sorting_text(t),
            },
    {
        match sorting_from_param(param) {
            Ok(sorting) => Ok(GetIndexQuery { sorting }),
            Err(e) => Err(e),
        }
    }
}

/// The listing a page shows, from what reading the directory gave: any
/// failure to read is reported as `ReadingDirectory`, never as a partial
/// listing; otherwise the entries in the requested order.
pub fn prepare_listing(read: Result<Vec<File>, AppError>, sorting: &SortType) -> (r: Result<Vec<File>, AppError>)
    ensures
        read is Err ==> r == Err::<Vec<File>, AppError>(AppError::ReadingDirectory),
        read is Ok ==> r is Ok && sorts_to(read->Ok_0@, *sorting, r->Ok_0@),
{
    match read {
        Err(_) => Err(AppError::ReadingDirectory),
        Ok(files) => Ok(FileSorter::new(files).sort(sorting)),
    }
}

/// A byte count in decimal units, as humansize writes it (`"1.50 kB"`).
pub uninterp spec fn decimal_size_text(bytes: int) -> Seq<char>;

/// Relies on humansize's `format_size` with its `DECIMAL` options: the text
/// depends on the number alone.
#[verifier::external_body]
fn humanize_decimal(size: u64) -> (r: String)
    ensures
        r@ == decimal_size_text(size as int),
{
    humansize::format_size(size, humansize::DECIMAL)
}

/// The size shown beside an entry.
pub fn format_size(size: u64) -> (r: String)
    ensures
        r@ == decimal_size_text(size as int),
{
    humanize_decimal(size)
}

} // verus!
