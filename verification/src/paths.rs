//! The files and directories of a chunked run.

use crate::text::{decimal, lemma_decimal_reads_back, push_decimal};
use std::path::{Path, PathBuf};
use vstd::prelude::*;

verus! {

/// A path of the file system.
#[verifier::external_type_specification]
#[verifier::external_body]
pub struct ExPath(std::path::Path);

/// An owned path of the file system.
#[verifier::external_type_specification]
#[verifier::external_body]
pub struct ExPathBuf(std::path::PathBuf);

/// The path that joining `name` to `dir` gives.
pub uninterp spec fn joined(dir: &std::path::Path, name: Seq<char>) -> std::path::PathBuf;

/// Calls `std::path::Path::join`. Claimed of it: what it returns depends on the two paths alone.
/// How it puts them together is the platform's affair (separators, prefixes) and is left unsaid.
#[verifier::external_body]
fn join_name(dir: &Path, name: &str) -> (r: PathBuf)
    ensures
        r == joined(dir, name@),
{
    dir.join(name)
}

/// The name of the progress file.
pub open spec fn progress_name() -> Seq<char> {
    ".arnis_progress.json"@
}

/// The progress file of a world.
pub fn progress_path(final_dir: &Path) -> (r: PathBuf)
    ensures
        r == joined(final_dir, progress_name()),
{
    join_name(final_dir, ".arnis_progress.json")
}

/// The name of the directory in which a tile is generated.
pub open spec fn tile_dir_name(tx: nat, tz: nat) -> Seq<char> {
    ".tile_"@ + decimal(tx) + "_"@ + decimal(tz)
}

/// The directory in which a tile is generated.
pub fn tile_dir(final_dir: &Path, tx: usize, tz: usize) -> (r: PathBuf)
    ensures
        r == joined(final_dir, tile_dir_name(tx as nat, tz as nat)),
{
    let mut name = String::from_str(".tile_");
    push_decimal(&mut name, tx as u64);
    name.append("_");
    push_decimal(&mut name, tz as u64);
    join_name(final_dir, name.as_str())
}

/// No two tiles share the name of their directory, and none has that of the progress file.
pub proof fn law_tile_dir_names_are_distinct(tx1: nat, tz1: nat, tx2: nat, tz2: nat)
    ensures
        tile_dir_name(tx1, tz1) == tile_dir_name(tx2, tz2) <==> tx1 == tx2 && tz1 == tz2,
        tile_dir_name(tx1, tz1) != progress_name(),
{
    reveal_strlit(".tile_");
    reveal_strlit("_");
    reveal_strlit(".arnis_progress.json");
    assert(tile_dir_name(tx1, tz1)[1] == 't');
    assert(progress_name()[1] == 'a');
    let a = tile_dir_name(tx1, tz1);
    let b = tile_dir_name(tx2, tz2);
    lemma_decimal_reads_back(tx1);
    lemma_decimal_reads_back(tz1);
    lemma_decimal_reads_back(tx2);
    lemma_decimal_reads_back(tz2);
    if a == b {
        let x1 = decimal(tx1);
        let x2 = decimal(tx2);
        let z1 = decimal(tz1);
        let z2 = decimal(tz2);
        if x1.len() < x2.len() {
            assert(a[6 + x1.len() as int] == '_');
            assert(b[6 + x1.len() as int] == x2[x1.len() as int]);
        }
        if x2.len() < x1.len() {
            assert(b[6 + x2.len() as int] == '_');
            assert(a[6 + x2.len() as int] == x1[x2.len() as int]);
        }
        assert(x1.len() == x2.len());
        let n = x1.len() as int;
        assert(a.subrange(6, 6 + n) =~= x1);
        assert(b.subrange(6, 6 + n) =~= x2);
        assert(a.skip(7 + n) =~= z1);
        assert(b.skip(7 + n) =~= z2);
    }
}

/// The names of the files of a run, letter by letter.
pub proof fn law_names_of_the_files(tx: nat, tz: nat)
    ensures
        progress_name() == ".arnis_progress.json"@,
        tile_dir_name(tx, tz) == ".tile_"@ + decimal(tx) + "_"@ + decimal(tz),
{
}

} // verus!
