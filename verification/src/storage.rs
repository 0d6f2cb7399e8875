//! Names of the files that sit beside a JSON store: the backup kept from the
//! previous write and the temporary file a write goes through. Reading,
//! writing and renaming are the application's part.

use vstd::prelude::*;

use crate::text::{append_str, string_of};

verus! {

/// The name a sidecar file takes: the store's file name (or `data.json` where
/// the path has none that is valid text) followed by `suffix`.
pub open spec fn sidecar_name(file_name: Option<Seq<char>>, suffix: Seq<char>) -> Seq<char> {
    match file_name {
        Some(n) => n + suffix,
        None => "data.json"@ + suffix,
    }
}

fn sidecar(file_name: Option<&str>, suffix: &str) -> (r: String)
    ensures
        r@ == sidecar_name(
            match file_name {
                Some(n) => Some(n@),
                None => None,
            },
            suffix@,
        ),
{
    let mut out: Vec<char> = Vec::new();
    match file_name {
        Some(n) => append_str(&mut out, n),
        None => append_str(&mut out, "data.json"),
    }
    append_str(&mut out, suffix);
    string_of(&out)
}

/// The backup beside a store file: `<name>.bak`.
pub fn backup_file_name(file_name: Option<&str>) -> (r: String)
    ensures
        r@ == sidecar_name(
            match file_name {
                Some(n) => Some(n@),
                None => None,
            },
            ".bak"@,
        ),
{
    sidecar(file_name, ".bak")
}

/// The temporary file a write goes through: `<name>.tmp`.
pub fn temp_file_name(file_name: Option<&str>) -> (r: String)
    ensures
        r@ == sidecar_name(
            match file_name {
                Some(n) => Some(n@),
                None => None,
            },
            ".tmp"@,
        ),
{
    sidecar(file_name, ".tmp")
}

} // verus!
