use vstd::prelude::*;
use crate::bytes_util::extend_from;

verus! {

/// Errors of configuration storage.
#[derive(Debug)]
pub enum ConfigError {
    Invalid { message: String },
}

/// `path` with a leading `~` replaced by the home directory, when known.
pub open spec fn resolved_path(path: Seq<char>, home: Option<String>) -> Seq<char> {
    if path.len() > 0 && path[0] == '~' && home is Some {
        home->Some_0@ + path.subrange(1, path.len() as int)
    } else {
        path
    }
}

/// Resolves a leading `~` to the home directory.
pub fn resolve_path(path: &str, home: Option<String>) -> (r: String)
    ensures
        r@ == resolved_path(path@, home),
{
    let n = path.unicode_len();
    if n > 0 && path.get_char(0) == '~' {
        if let Some(h) = home {
            let mut r = h;
            r.append(path.substring_char(1, n));
            return r;
        }
    }
    path.to_string()
}

/// Configuration kept in a file, or in the `.toml` files of a directory.
pub struct FileStorage {
    pub path: String,
}

impl FileStorage {
    /// A storage at `path` (a leading `~` meaning `home`); an empty path is
    /// refused.
    pub fn new(path: &str, home: Option<String>) -> (r: Result<FileStorage, ConfigError>)
        ensures
            r is Ok <==> resolved_path(path@, home).len() > 0,
            r is Ok ==> r->Ok_0.path@ == resolved_path(path@, home),
    {
        let filepath = resolve_path(path, home);
        if filepath.as_str().unicode_len() == 0 {
            return Err(ConfigError::Invalid { message: String::from_str("Config path is empty") });
        }
        Ok(FileStorage { path: filepath })
    }
}

/// The files of a configuration directory joined, each followed by a newline.
pub open spec fn joined(parts: Seq<Vec<u8>>) -> Seq<u8>
    decreases parts.len(),
{
    if parts.len() == 0 {
        Seq::empty()
    } else {
        joined(parts.drop_last()) + parts.last()@ + seq![10u8]
    }
}

/// Joins the contents of the files of a configuration directory.
pub fn join_config_files(parts: &Vec<Vec<u8>>) -> (r: Vec<u8>)
    ensures
        r@ == joined(parts@),
{
    let mut r: Vec<u8> = Vec::new();
    let mut i: usize = 0;
    while i < parts.len()
        invariant
            i <= parts@.len(),
            r@ == joined(parts@.subrange(0, i as int)),
        decreases parts@.len() - i,
    {
        extend_from(&mut r, parts[i].as_slice());
        r.push(10u8);
        assert(parts@.subrange(0, i + 1).drop_last() =~= parts@.subrange(0, i as int));
        i = i + 1;
    }
    assert(parts@.subrange(0, parts@.len() as int) =~= parts@);
    r
}

} // verus!
