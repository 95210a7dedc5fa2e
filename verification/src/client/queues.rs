//! The queues of uploads and downloads that users have asked for.

use vstd::prelude::*;

verus! {

/// An upload that a user has asked for. A resumed one has the transfer in place of the folder, and
/// no path.
#[derive(Debug)]
pub struct UploadItem {
    pub folder_uuid: String,
    pub path: String,
    pub username: String,
    pub password: String,
    pub frontend_uuid: String,
    pub is_reinit: bool,
}

/// A download that a user has asked for. A resumed one has the noted download in place of the
/// file, and no path.
#[derive(Debug)]
pub struct DownloadItem {
    pub username: String,
    pub password: String,
    pub file_uuid: String,
    pub frontend_uuid: String,
    pub path: Option<String>,
    pub is_reinit: bool,
}

/// How a transfer ended, for those who watch it.
#[derive(Debug)]
pub struct TransferStatus {
    pub transfer_id: String,
    pub success: bool,
    pub error: Option<String>,
}

/// Whether an item asks for a fresh upload of the file at `path`.
pub open spec fn uploads(
    item: UploadItem,
    username: Seq<char>,
    password: Seq<char>,
    folder: Seq<char>,
    path: Seq<char>,
    frontend: Seq<char>,
) -> bool {
    &&& item.folder_uuid@ == folder
    &&& item.path@ == path
    &&& item.username@ == username
    &&& item.password@ == password
    &&& item.frontend_uuid@ == frontend
    &&& !item.is_reinit
}

/// One upload for each path, in order.
pub fn upload_batch(
    username: &str,
    password: &str,
    folder_uuid: &str,
    paths: &Vec<(String, String)>,
) -> (items: Vec<UploadItem>)
    ensures
        items@.len() == paths@.len(),
        forall|i: int|
            0 <= i < items@.len() ==> uploads(
                #[trigger] items@[i],
                username@,
                password@,
                folder_uuid@,
                paths@[i].0@,
                paths@[i].1@,
            ),
{
    let mut items: Vec<UploadItem> = Vec::new();
    let mut i: usize = 0;
    while i < paths.len()
        invariant
            i <= paths@.len(),
            items@.len() == i,
            forall|k: int|
                0 <= k < i ==> uploads(
                    #[trigger] items@[k],
                    username@,
                    password@,
                    folder_uuid@,
                    paths@[k].0@,
                    paths@[k].1@,
                ),
        decreases paths@.len() - i,
    {
        items.push(
            UploadItem {
                folder_uuid: folder_uuid.to_owned(),
                path: paths[i].0.clone(),
                username: username.to_owned(),
                password: password.to_owned(),
                frontend_uuid: paths[i].1.clone(),
                is_reinit: false,
            },
        );
        i += 1;
    }
    items
}

/// A resumed upload of the transfer `send_uuid`.
pub fn upload_reinit(username: &str, password: &str, send_uuid: &str, frontend_uuid: &str) -> (item:
    UploadItem)
    ensures
        item.folder_uuid@ == send_uuid@,
        item.path@.len() == 0,
        item.username@ == username@,
        item.password@ == password@,
        item.frontend_uuid@ == frontend_uuid@,
        item.is_reinit,
{
    UploadItem {
        folder_uuid: send_uuid.to_owned(),
        path: String::new(),
        username: username.to_owned(),
        password: password.to_owned(),
        frontend_uuid: frontend_uuid.to_owned(),
        is_reinit: true,
    }
}

/// A fresh download of the file `file_uuid` to `path`.
pub fn download(
    username: &str,
    password: &str,
    file_uuid: &str,
    frontend_uuid: &str,
    path: &str,
) -> (item: DownloadItem)
    ensures
        item.file_uuid@ == file_uuid@,
        item.path is Some && item.path->0@ == path@,
        item.username@ == username@,
        item.password@ == password@,
        item.frontend_uuid@ == frontend_uuid@,
        !item.is_reinit,
{
    DownloadItem {
        username: username.to_owned(),
        password: password.to_owned(),
        file_uuid: file_uuid.to_owned(),
        frontend_uuid: frontend_uuid.to_owned(),
        path: Some(path.to_owned()),
        is_reinit: false,
    }
}

/// A resumed download of the noted download `acc_uuid`.
pub fn download_reinit(
    username: &str,
    password: &str,
    acc_uuid: &str,
    frontend_uuid: &str,
) -> (item: DownloadItem)
    ensures
        item.file_uuid@ == acc_uuid@,
        item.path is None,
        item.username@ == username@,
        item.password@ == password@,
        item.frontend_uuid@ == frontend_uuid@,
        item.is_reinit,
{
    DownloadItem {
        username: username.to_owned(),
        password: password.to_owned(),
        file_uuid: acc_uuid.to_owned(),
        frontend_uuid: frontend_uuid.to_owned(),
        path: None,
        is_reinit: true,
    }
}

/// How a queued download goes on.
#[derive(Debug)]
pub enum DownloadPlan {
    /// It is resumed.
    Resume,
    /// It is fetched to this path.
    Fetch(String),
    /// There is nowhere to put it, and it is passed over.
    Skip,
}

pub fn plan_download(item: &DownloadItem) -> (plan: DownloadPlan)
    ensures
        match plan {
            DownloadPlan::Resume => item.is_reinit,
            DownloadPlan::Fetch(p) => !item.is_reinit && item.path is Some && p@
                == item.path->0@,
            DownloadPlan::Skip => !item.is_reinit && item.path is None,
        },
{
    if item.is_reinit {
        return DownloadPlan::Resume;
    }
    match &item.path {
        Some(p) => DownloadPlan::Fetch(p.clone()),
        None => DownloadPlan::Skip,
    }
}

/// How a transfer ended: well, or with this error.
pub fn transfer_status(transfer_id: &str, error: Option<String>) -> (status: TransferStatus)
    ensures
        status.transfer_id@ == transfer_id@,
        status.success == error is None,
        status.error == error,
{
    TransferStatus { transfer_id: transfer_id.to_owned(), success: error.is_none(), error }
}

/// A queued upload says whose it is, where the file lies, which folder it goes to and what to
/// report progress under, and is no resumed one.
pub proof fn queued_uploads_say_what_was_asked(
    item: UploadItem,
    username: Seq<char>,
    password: Seq<char>,
    folder: Seq<char>,
    path: Seq<char>,
    frontend: Seq<char>,
)
    requires
        uploads(item, username, password, folder, path, frontend),
    ensures
        item.username@ == username,
        item.password@ == password,
        item.folder_uuid@ == folder,
        item.path@ == path,
        item.frontend_uuid@ == frontend,
        !item.is_reinit,
{
}

} // verus!
