//! Resuming a download of the compact protocol.

use std::collections::HashSet;

use vstd::prelude::*;
use vstd::string::StringExecFns;

use crate::client::reinit::PartAcc;
use crate::ids::{uuid_parsed, Uuid};
use crate::wire::{be_value, read_u32};

verus! {

broadcast use vstd::std_specs::hash::group_hash_axioms;

/// A text in double quotes, with what cannot stand there escaped, as `Debug` writes it.
pub uninterp spec fn quoted(text: Seq<char>) -> Seq<char>;

/// Calls the standard library's `Debug` of `str`.
#[verifier::external_body]
fn debug_text(text: &str) -> (out: String)
    ensures
        out@ == quoted(text@),
{
    format!("{:?}", text)
}

/// Where a download is kept until it is whole, given its name in quotes.
pub fn temp_path_of(quoted_name: &str) -> (path: String)
    ensures
        path@ == "./temp/"@ + quoted_name@,
{
    let mut path: String = "./temp/".to_owned();
    path.append(quoted_name);
    path
}

/// Where a download of the file called `filename` is kept until it is whole.
pub fn quoted_temp_path(filename: &str) -> (path: String)
    ensures
        path@ == "./temp/"@ + quoted(filename@),
{
    temp_path_of(debug_text(filename).as_str())
}

/// The number of chunks that the server announces behind its code.
pub fn announced_chunks(buf: &[u8; 100]) -> (n: u32)
    ensures
        n == be_value(buf@.subrange(1, 5)),
{
    read_u32(buf.as_slice(), 1)
}

/// The server's file of the first download that can be resumed; `None` where there is none, or its
/// identifier cannot be read.
pub fn resume_target(acc: &Vec<PartAcc>) -> (target: Option<Uuid>)
    ensures
        match target {
            Some(u) => acc@.len() > 0 && uuid_parsed(acc@[0].server_uuid@) == Some(u.bytes@),
            None => acc@.len() == 0 || uuid_parsed(acc@[0].server_uuid@) is None,
        },
{
    if acc.len() == 0 {
        return None;
    }
    Uuid::from_text(acc[0].server_uuid.as_str())
}

/// Why a download cannot be resumed, given which of the client's directories exist.
pub fn missing_directory(temp_exists: bool, storage_exists: bool) -> (reason: Option<String>)
    ensures
        match reason {
            Some(r) => if !temp_exists {
                r@ == "temp location didnt exist"@
            } else {
                !storage_exists && r@ == "stor location didnt exist"@
            },
            None => temp_exists && storage_exists,
        },
{
    if !temp_exists {
        return Some("temp location didnt exist".to_owned());
    }
    if !storage_exists {
        return Some("stor location didnt exist".to_owned());
    }
    None
}

/// What is kept beside an unfinished download.
#[derive(Debug)]
pub struct ConfigFile {
    pub last_changed_at: u64,
    pub file_size_chunks: usize,
    pub transfered_chunks: HashSet<usize>,
    pub owner: Vec<Uuid>,
    pub is_public: bool,
}

fn within(small: &HashSet<usize>, big: &HashSet<usize>) -> (yes: bool)
    ensures
        yes == small@.subset_of(big@),
{
    for key in it: small.iter()
        invariant
            it.seq().unref().to_set() == small@,
            forall|j: int| 0 <= j < it.index() ==> big@.contains(*#[trigger] it.seq()[j]),
    {
        proof {
            assert(it.seq().unref()[it.index()] == *key);
            assert(it.seq().unref().to_set().contains(*key));
        }
        if !big.contains(key) {
            assert(small@.contains(*key));
            return false;
        }
    }
    proof {
        assert forall|x: usize| small@.contains(x) implies big@.contains(x) by {}
    }
    true
}

/// Adds all of `more` to `chunks`.
pub fn merge_chunks(chunks: &mut HashSet<usize>, more: &HashSet<usize>)
    ensures
        final(chunks)@ == old(chunks)@ + more@,
{
    let ghost before = chunks@;
    for key in it: more.iter()
        invariant
            it.seq().unref().to_set() == more@,
            before.subset_of(chunks@),
            chunks@.subset_of(before + more@),
            forall|j: int| 0 <= j < it.index() ==> chunks@.contains(*#[trigger] it.seq()[j]),
    {
        proof {
            assert(it.seq().unref()[it.index()] == *key);
            assert(it.seq().unref().to_set().contains(*key));
        }
        chunks.insert(*key);
    }
    proof {
        assert forall|x: usize| more@.contains(x) implies chunks@.contains(x) by {}
        assert(chunks@ =~= before + more@);
    }
}

/// Adds the chunks that have arrived to what is kept beside a download. Answers whether anything
/// is to be saved.
pub fn update_config(config: &mut ConfigFile, chunk_log: &HashSet<usize>, now: u64) -> (changed:
    bool)
    ensures
        changed == (old(config).transfered_chunks@ != chunk_log@),
        final(config).transfered_chunks@ == old(config).transfered_chunks@ + chunk_log@,
        final(config).last_changed_at == (if changed {
            now
        } else {
            old(config).last_changed_at
        }),
        final(config).file_size_chunks == old(config).file_size_chunks,
        final(config).owner@ == old(config).owner@,
        final(config).is_public == old(config).is_public,
{
    if within(&config.transfered_chunks, chunk_log) && within(
        chunk_log,
        &config.transfered_chunks,
    ) {
        proof {
            assert(config.transfered_chunks@ =~= chunk_log@);
            assert(config.transfered_chunks@ =~= config.transfered_chunks@ + chunk_log@);
        }
        return false;
    }
    config.last_changed_at = now;
    merge_chunks(&mut config.transfered_chunks, chunk_log);
    true
}

} // verus!
