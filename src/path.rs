use vstd::prelude::*;
use vstd::string::*;
use crate::text::str_eq;

verus! {

/// The browsing root.
pub open spec fn root_text() -> Seq<char> {
    "."@
}

/// `file` placed under `dir`, with `/` between them. An absolute `file`
/// stands for itself; an empty `dir` adds nothing.
pub open spec fn join_path(dir: Seq<char>, file: Seq<char>) -> Seq<char> {
    if file.len() > 0 && file[0] == '/' {
        file
    } else if dir.len() == 0 {
        file
    } else if dir.last() == '/' {
        dir + file
    } else {
        dir + "/"@ + file
    }
}

/// The directory a request names: the root when no path is given or the
/// path is the bare separator `/`.
pub open spec fn directory_of(path: Option<Seq<char>>) -> Seq<char> {
    match path {
        None => root_text(),
        Some(p) => if p == "/"@ {
            root_text()
        } else {
            p
        },
    }
}

/// Why a request that must name a file was refused.
#[derive(Clone, Copy, Debug, PartialEq, Eq, Structural)]
pub enum PathError {
    /// The request names no file.
    MissingFile,
}

/// The filesystem target of one request.
pub struct PathRequest {
    pub directory: String,
    pub file: Option<String>,
    /// `directory` joined with `file`, or `directory` alone.
    pub full_path: String,
}

/// `r` is the target of a request with the given `path` and `file`.
pub open spec fn resolves_to(path: Option<Seq<char>>, file: Option<Seq<char>>, r: PathRequest) -> bool {
    &&& r.directory@ == directory_of(path)
    &&& match file {
        None => r.file is None && r.full_path@ == r.directory@,
        Some(f) => r.file is Some && r.file->0@ == f && r.full_path@ == join_path(r.directory@, f),
    }
}

/// Joins two paths as `join_path` says.
pub fn join(dir: &str, file: &str) -> (r: String)
    ensures
        r@ == join_path(dir@, file@),
{
    let file_len = file.unicode_len();
    let dir_len = dir.unicode_len();
    if file_len > 0 && file.get_char(0) == '/' {
        String::from_str(file)
    } else if dir_len == 0 {
        String::from_str(file)
    } else if dir.get_char(dir_len - 1) == '/' {
        let mut r = String::from_str(dir);
        r.append(file);
        r
    } else {
        let mut r = String::from_str(dir);
        r.append("/");
        r.append(file);
        r
    }
}

impl PathRequest {
    /// The target of a request whose query could not be read: the root.
    pub fn root() -> (r: PathRequest)
        ensures
            resolves_to(None, None, r),
    {
        PathRequest {
            directory: String::from_str("."),
            file: None,
            full_path: String::from_str("."),
        }
    }

    /// Resolves the `path` and `file` query values of a request.
    pub fn from_query(path: Option<String>, file: Option<String>) -> (r: PathRequest)
        ensures
            resolves_to(
                match path {
                    None => None,
                    Some(p) => Some(p@),
                },
                match file {
                    None => None,
                    Some(f) => Some(f@),
                },
                r,
            ),
    {
        let directory = match path {
            None => String::from_str("."),
            Some(p) => if str_eq(p.as_str(), "/") {
                String::from_str(".")
            } else {
                p
            },
        };
        let full_path = match &file {
            None => String::from_str(directory.as_str()),
            Some(f) => join(directory.as_str(), f.as_str()),
        };
        PathRequest { directory, file, full_path }
    }

    /// Resolves a request that must name a file, as a delete does; one that
    /// names none is refused.
    pub fn for_file(path: Option<String>, file: Option<String>) -> (r: Result<PathRequest, PathError>)
        ensures
            file is None ==> r == Err::<PathRequest, PathError>(PathError::MissingFile),
            file is Some ==> r is Ok && resolves_to(
                match path {
                    None => None,
                    Some(p) => Some(p@),
                },
                Some(file->0@),
                r->Ok_0,
            ),
    {
        match file {
            None => Err(PathError::MissingFile),
            Some(f) => Ok(PathRequest::from_query(path, Some(f))),
        }
    }
}

} // verus!
