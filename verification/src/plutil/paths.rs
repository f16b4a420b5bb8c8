use vstd::prelude::*;
use crate::plutil::args::{opt_view, Options};
use crate::text::{chars_of, push_char};

verus! {


/// What `Path::file_name` gives for a path, as text.
pub uninterp spec fn name_of(path: Seq<char>) -> Option<Seq<char>>;

/// What `Path::with_extension` gives for a path and an extension, as text.
pub uninterp spec fn with_extension(path: Seq<char>, ext: Seq<char>) -> Seq<char>;

/// Where the last `.` of a file name is.
pub open spec fn last_dot(n: Seq<char>) -> Option<int>
    decreases n.len(),
{
    if n.len() == 0 {
        None
    } else if n.last() == '.' {
        Some(n.len() - 1)
    } else {
        last_dot(n.drop_last())
    }
}

/// What `Path::file_stem` gives for a path, as its documentation states it
/// from the file name: none without a file name; the whole name where it
/// has no `.` but perhaps a leading one; else the part before the last `.`.
pub open spec fn stem_of(path: Seq<char>) -> Option<Seq<char>> {
    match name_of(path) {
        None => None,
        Some(n) => Some(
            match last_dot(n) {
                Some(i) => if i == 0 {
                    n
                } else {
                    n.take(i)
                },
                None => n,
            },
        ),
    }
}

/// `Path::file_stem`: the file name of the path without its extension,
/// read as text (see `stem_of`; the file name itself is named by
/// `name_of`).
#[verifier::external_body]
fn file_stem(path: &str) -> (r: Option<String>)
    ensures
        match r {
            Some(s) => stem_of(path@) == Some(s@),
            None => stem_of(path@) is None,
        },
{
    match std::path::Path::new(path).file_stem() {
        Some(s) => Some(s.to_string_lossy().to_string()),
        None => None,
    }
}

/// `Path::file_name`: the last component of the path, read as text.  The
/// contract names the result; the path rules behind it are not stated.
#[verifier::external_body]
pub(crate) fn file_name(path: &str) -> (r: Option<String>)
    ensures
        match r {
            Some(s) => name_of(path@) == Some(s@),
            None => name_of(path@) is None,
        },
{
    match std::path::Path::new(path).file_name() {
        Some(s) => Some(s.to_string_lossy().to_string()),
        None => None,
    }
}

/// Whether `Path::with_extension` takes `ext`: it panics on an extension
/// that holds a path separator (`/`).
pub open spec fn extension_ok(ext: Seq<char>) -> bool {
    !ext.contains('/')
}

/// `Path::with_extension`: the path with its extension replaced by `ext`,
/// read as text; `ext` holds no path separator, on which it panics.  The
/// contract names the result; the path rules behind it are not stated.
#[verifier::external_body]
pub(crate) fn path_with_extension(path: &str, ext: &str) -> (r: String)
    requires
        extension_ok(ext@),
    ensures
        r@ == with_extension(path@, ext@),
{
    std::path::Path::new(path).with_extension(ext).to_string_lossy().to_string()
}

/// The text with every `-` and space turned into `_`.
pub open spec fn underscored(s: Seq<char>) -> Seq<char> {
    Seq::new(
        s.len(),
        |i: int|
            if s[i] == '-' || s[i] == ' ' {
                '_'
            } else {
                s[i]
            },
    )
}

/// The variable name generated code gives a plist read from `path`: the
/// file's stem (`plist` where there is none), dashes and spaces made
/// underscores.
pub open spec fn var_name(path: Seq<char>) -> Seq<char> {
    underscored(
        match stem_of(path) {
            Some(s) => s,
            None => "plist"@,
        },
    )
}

/// The file name that generated code names as its source (`plist` where
/// the path has none).
pub open spec fn source_name(path: Seq<char>) -> Seq<char> {
    match name_of(path) {
        Some(s) => s,
        None => "plist"@,
    }
}

/// The variable name for a plist read from `path` (see `var_name`).
pub fn var_name_from_path(path: &str) -> (r: String)
    ensures
        r@ == var_name(path@),
{
    let stem = match file_stem(path) {
        Some(s) => s,
        None => String::from_str("plist"),
    };
    let v = chars_of(stem.as_str());
    let mut r = String::new();
    let mut i: usize = 0;
    while i < v.len()
        invariant
            i <= v@.len(),
            v@ == stem@,
            r@ == underscored(stem@).take(i as int),
        decreases v@.len() - i,
    {
        let c = v[i];
        push_char(
            &mut r,
            if c == '-' || c == ' ' {
                '_'
            } else {
                c
            },
        );
        assert(r@ =~= underscored(stem@).take(i + 1));
        i += 1;
    }
    assert(underscored(stem@).take(v@.len() as int) =~= underscored(stem@));
    r
}

/// The file name generated code names as its source (see `source_name`).
pub fn source_file_name(path: &str) -> (r: String)
    ensures
        r@ == source_name(path@),
{
    match file_name(path) {
        Some(s) => s,
        None => String::from_str("plist"),
    }
}

/// Where a result for `file_arg` goes: `-o`'s path, else the file with the
/// extension `-e` gives, else the file itself.
pub open spec fn output_path(file_arg: Seq<char>, o: Option<Seq<char>>, e: Option<Seq<char>>) -> Seq<
    char,
> {
    match o {
        Some(p) => p,
        None => match e {
            Some(x) => with_extension(file_arg, x),
            None => file_arg,
        },
    }
}

/// Whether the output path can be worked out: `-o` gives it, or the
/// extension `-e` gives, if any, holds no path separator.
pub open spec fn output_path_ok(o: Option<Seq<char>>, e: Option<Seq<char>>) -> bool {
    o is Some || (e matches Some(x) ==> extension_ok(x))
}

/// Whether the output path can be worked out (see `output_path_ok`).
pub fn output_path_allowed(opts: &Options) -> (b: bool)
    ensures
        b == output_path_ok(opt_view(opts.output_path), opt_view(opts.extension)),
{
    if opts.output_path.is_some() {
        return true;
    }
    match &opts.extension {
        None => true,
        Some(x) => {
            let v = chars_of(x.as_str());
            let n = v.len();
            let mut i: usize = 0;
            while i < n
                invariant
                    n == v@.len(),
                    v@ == x@,
                    opt_view(opts.extension) == Some(x@),
                    opts.output_path is None,
                    i <= n,
                    forall|j: int| 0 <= j < i ==> v@[j] != '/',
                decreases n - i,
            {
                if v[i] == '/' {
                    assert(x@[i as int] == '/');
                    assert(x@.contains('/'));
                    return false;
                }
                i += 1;
            }
            true
        },
    }
}

/// Where a result for `file_arg` goes (see `output_path`).
pub fn resolve_output_path(file_arg: &str, opts: &Options) -> (r: String)
    requires
        output_path_ok(opt_view(opts.output_path), opt_view(opts.extension)),
    ensures
        r@ == output_path(file_arg@, opt_view(opts.output_path), opt_view(opts.extension)),
{
    match &opts.output_path {
        Some(o) => o.clone(),
        None => match &opts.extension {
            Some(x) => path_with_extension(file_arg, x.as_str()),
            None => String::from_str(file_arg),
        },
    }
}

} // verus!
