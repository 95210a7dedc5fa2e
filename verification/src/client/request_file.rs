//! Downloading: what the server answers, where the pieces of a download lie, and how it ends.

use std::collections::HashSet;

use vstd::prelude::*;
use vstd::string::StringExecFns;

use crate::client::reinit::PartAcc;
use crate::file_transfer::{ack, build_ack};
use crate::ids::Uuid;
use crate::paths::{file_name, file_name_of, file_stem, file_stem_of, join, joined};
use crate::response::ErrorTransfer;
use crate::wire::{be_value, read_u64, MSG_ACK_FAIL, MSG_ACK_OK};

verus! {

broadcast use vstd::std_specs::hash::group_hash_axioms;

/// How far a transfer has come, for those who watch it.
#[derive(Debug)]
pub struct ProgressPayload {
    pub transfer_id: String,
    pub percent: u8,
}

/// What is kept beside an unfinished download, so that it can be resumed.
#[derive(Debug)]
pub struct ConfigFile {
    pub last_changed_at: u64,
    pub file_size_chunks: u64,
    pub transfered_chunks: HashSet<u64>,
    pub owner: Vec<Uuid>,
    pub is_public: bool,
}

#[verifier::ext_equal]
pub struct ConfigView {
    pub last_changed_at: u64,
    pub file_size_chunks: u64,
    pub transfered_chunks: Set<u64>,
    pub owner: Seq<Uuid>,
    pub is_public: bool,
}

impl View for ConfigFile {
    type V = ConfigView;

    open spec fn view(&self) -> ConfigView {
        ConfigView {
            last_changed_at: self.last_changed_at,
            file_size_chunks: self.file_size_chunks,
            transfered_chunks: self.transfered_chunks@,
            owner: self.owner@,
            is_public: self.is_public,
        }
    }
}

/// A download, and where its pieces lie.
#[derive(Debug)]
pub struct TransferedFile {
    pub file_size_chunks: u64,
    pub storage_path: String,
    pub temp_path: String,
    pub config_path: String,
}

#[verifier::ext_equal]
pub struct DownloadView {
    pub file_size_chunks: u64,
    pub storage_path: Seq<char>,
    pub temp_path: Seq<char>,
    pub config_path: Seq<char>,
}

impl View for TransferedFile {
    type V = DownloadView;

    open spec fn view(&self) -> DownloadView {
        DownloadView {
            file_size_chunks: self.file_size_chunks,
            storage_path: self.storage_path@,
            temp_path: self.temp_path@,
            config_path: self.config_path@,
        }
    }
}

/// The server's answer in nine bytes: a code, and the number of chunks, which means something only
/// where the code is that of success.
pub fn read_handshake_response(buf: &[u8; 9]) -> (answer: (u8, u64))
    ensures
        answer.0 == buf@[0],
        answer.1 == be_value(buf@.subrange(1, 9)),
{
    (buf[0], read_u64(buf.as_slice(), 1))
}

/// What the server's answer to a request for a file means.
#[derive(Clone, Copy, Debug, PartialEq, Eq, Structural)]
pub enum Handshake {
    Granted,
    Forbidden,
    /// It failed with this code.
    Failed(u8),
}

pub fn handshake_verdict(code: u8) -> (verdict: Handshake)
    ensures
        verdict == (match code {
            20 => Handshake::Granted,
            48 => Handshake::Forbidden,
            other => Handshake::Failed(other),
        }),
{
    if code == MSG_ACK_OK {
        Handshake::Granted
    } else if code == 48 {
        Handshake::Forbidden
    } else {
        Handshake::Failed(code)
    }
}

/// Where a download to `real_path` is kept until it is whole.
pub open spec fn temp_for(real_path: Seq<char>) -> Seq<char> {
    "./temp/"@ + (match file_name_of(real_path) {
        Some(n) => n,
        None => Seq::empty(),
    })
}

/// Where a download to `real_path` is kept until it is whole.
pub fn temp_path_for(real_path: &str) -> (temp: String)
    ensures
        temp@ == temp_for(real_path@),
{
    let mut temp: String = "./temp/".to_owned();
    match file_name(real_path) {
        Some(n) => {
            temp.append(n.as_str());
        },
        None => {
            assert(temp@ =~= temp_for(real_path@));
        },
    }
    temp
}

/// What is noted of a download that begins.
pub fn begun_download(real_path: &str, file_uuid: &Uuid, part_uuid: Uuid) -> (part: PartAcc)
    ensures
        part.uuid == part_uuid,
        part.temp_path@ == temp_for(real_path@),
        part.real_path@ == real_path@,
        part.server_uuid@ == crate::ids::uuid_text(file_uuid.bytes@),
{
    PartAcc {
        uuid: part_uuid,
        temp_path: temp_path_for(real_path),
        real_path: real_path.to_owned(),
        server_uuid: file_uuid.to_text(),
    }
}

/// Where what is needed to resume a download is kept.
pub fn config_path_for(temp_path: &str) -> (path: String)
    ensures
        path@ == temp_path@ + ".config"@,
{
    let mut path: String = temp_path.to_owned();
    path.append(".config");
    path
}

/// Opens a download. `dirs_ready` says whether the client's directories exist or could be created,
/// `taken` whether one of the three paths exists already, and `created` whether the temporary file
/// could be created.
pub fn init_transfer(
    temp_path: &str,
    real_path: &str,
    file_size_chunks: u64,
    dirs_ready: bool,
    taken: bool,
    created: bool,
) -> (opened: Result<TransferedFile, ErrorTransfer>)
    ensures
        match opened {
            Ok(t) => dirs_ready && !taken && created && t@ == (DownloadView {
                file_size_chunks,
                storage_path: real_path@,
                temp_path: temp_path@,
                config_path: temp_path@ + ".config"@,
            }),
            Err(e) => if !dirs_ready {
                e == ErrorTransfer::InternalServerError
            } else if taken {
                e == ErrorTransfer::ThisFileExists
            } else {
                !created && e == ErrorTransfer::InternalServerError
            },
        },
{
    if !dirs_ready {
        return Err(ErrorTransfer::InternalServerError);
    }
    if taken {
        return Err(ErrorTransfer::ThisFileExists);
    }
    if !created {
        return Err(ErrorTransfer::InternalServerError);
    }
    Ok(
        TransferedFile {
            file_size_chunks,
            storage_path: real_path.to_owned(),
            temp_path: temp_path.to_owned(),
            config_path: config_path_for(temp_path),
        },
    )
}

/// Reopens a download from what was kept of it; `None` where the path of that ends in no name.
pub fn resume_transfer(part: &PartAcc, config: &ConfigFile) -> (opened: Option<TransferedFile>)
    ensures
        ({
            let kept = part.temp_path@ + ".config"@;
            match opened {
                Some(t) => file_stem_of(kept) is Some && t@ == (DownloadView {
                    file_size_chunks: config.file_size_chunks,
                    storage_path: part.real_path@,
                    temp_path: joined("./temp"@, file_stem_of(kept)->0),
                    config_path: kept,
                }),
                None => file_stem_of(kept) is None,
            }
        }),
{
    let kept: String = config_path_for(part.temp_path.as_str());
    match file_stem(kept.as_str()) {
        None => None,
        Some(stem) => Some(
            TransferedFile {
                file_size_chunks: config.file_size_chunks,
                storage_path: part.real_path.clone(),
                temp_path: join("./temp", stem.as_str()),
                config_path: kept,
            },
        ),
    }
}

/// What is kept beside a new download.
pub fn setup_config(file: &TransferedFile, now: u64) -> (config: ConfigFile)
    ensures
        config@ == (ConfigView {
            last_changed_at: now,
            file_size_chunks: file@.file_size_chunks,
            transfered_chunks: Set::empty(),
            owner: Seq::empty(),
            is_public: false,
        }),
{
    ConfigFile {
        last_changed_at: now,
        file_size_chunks: file.file_size_chunks,
        transfered_chunks: HashSet::new(),
        owner: Vec::new(),
        is_public: false,
    }
}

/// Brings what is kept beside a download up to date. Answers whether anything changed.
pub fn update_config(config: &mut ConfigFile, chunk_log: &HashSet<u64>, now: u64) -> (changed: bool)
    ensures
        changed == (old(config)@.transfered_chunks != chunk_log@),
        final(config)@ == (if changed {
            ConfigView {
                last_changed_at: now,
                transfered_chunks: chunk_log@,
                ..old(config)@
            }
        } else {
            old(config)@
        }),
{
    if crate::file_transfer::same_chunks(&config.transfered_chunks, chunk_log) {
        return false;
    }
    config.last_changed_at = now;
    config.transfered_chunks = crate::file_transfer::copy_chunks(chunk_log);
    true
}

/// Takes in whether the bytes of a chunk could be written. Gives the answer to send, and whether
/// to save which chunks have arrived and report progress.
pub fn chunk_written(chunk_log: &mut HashSet<u64>, chunk_id: u64, written: bool) -> (done: (
    Vec<u8>,
    bool,
))
    ensures
        final(chunk_log)@ == (if written {
            old(chunk_log)@.insert(chunk_id)
        } else {
            old(chunk_log)@
        }),
        done.0@ == ack(
            if written {
                MSG_ACK_OK
            } else {
                MSG_ACK_FAIL
            },
            chunk_id,
        ),
        done.1 == (written && final(chunk_log)@.len() % 32 == 0),
{
    if !written {
        return (build_ack(MSG_ACK_FAIL, chunk_id), false);
    }
    chunk_log.insert(chunk_id);
    let count: usize = chunk_log.len();
    (build_ack(MSG_ACK_OK, chunk_id), count % 32 == 0)
}

/// What the sender's last byte means.
pub fn final_verdict(byte: u8) -> (result: Result<(), ErrorTransfer>)
    ensures
        result == (match byte {
            20 => Ok::<(), ErrorTransfer>(()),
            44 => Err(ErrorTransfer::HashesDoNotMatch),
            _ => Err(ErrorTransfer::InternalServerError),
        }),
{
    if byte == MSG_ACK_OK {
        Ok(())
    } else if byte == MSG_ACK_FAIL {
        Err(ErrorTransfer::HashesDoNotMatch)
    } else {
        Err(ErrorTransfer::InternalServerError)
    }
}

/// A download is kept directly in the temporary directory, under the name that its path ends in.
pub proof fn downloads_are_kept_under_their_name(real_path: Seq<char>)
    requires
        file_name_of(real_path) is Some,
    ensures
        file_name_of(temp_for(real_path)) == file_name_of(real_path),
        temp_for(real_path) == "./temp/"@ + file_name_of(real_path)->0,
{
    reveal_strlit("./temp/");
    crate::paths::names_lie_directly_inside("./temp/"@, real_path);
}

} // verus!
