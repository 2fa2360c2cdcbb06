//! The bookkeeping of the destinations that write documents to disk.
//!
//! Nothing here touches the file system. The caller looks at the path,
//! asks what is to be done, writes, and reports how the write went; the
//! names, the counting and the messages are decided here.

use vstd::prelude::*;
use vstd::string::*;
use crate::error::{Fault, GenError, GenErrorType};
use crate::text::{decimal, decimal_text};

verus! {

/// What the caller found at a destination's path.
#[derive(Debug, Clone, Copy, PartialEq, Eq, Structural)]
pub enum PathState {
    /// Nothing is there.
    Missing,
    /// A file is there.
    File,
    /// A directory is there.
    Directory,
}

/// What the caller has to do before the first document is sent.
#[derive(Debug, Clone, Copy, PartialEq, Eq, Structural)]
pub enum Preparation {
    /// Nothing: the path can be used as it is.
    Ready,
    /// Create what the destination writes to.
    Create,
}

/// Saves each document to a file of its own in one folder. It counts the
/// documents saved to number the files.
#[derive(Debug)]
pub struct FolderSender {
    path: String,
    idx: usize,
}

/// Appends every document to one file.
#[derive(Debug)]
pub struct FileSender {
    path: String,
}

/// The name of the file for the document with number `idx`.
pub open spec fn folder_file_name(idx: nat) -> Seq<char> {
    "json_"@ + decimal_text(idx) + ".json"@
}

/// The acknowledgment for a document saved in a folder.
pub open spec fn folder_saved_text(idx: nat, path: Seq<char>) -> Seq<char> {
    "the item "@ + decimal_text(idx) + " has been saved in the folder: "@ + path
}

/// The failure for a document that could not be saved in a folder.
pub open spec fn folder_failed_fault(complaint: Seq<char>) -> Fault {
    Fault { reason: "error while appending to a file: "@ + complaint, tpe: GenErrorType::Sender }
}

/// The failure for a folder destination whose path is a file.
pub open spec fn not_a_folder_fault(path: Seq<char>) -> Fault {
    Fault {
        reason: "the output path "@ + path + " to the file should point to a folder."@,
        tpe: GenErrorType::Sender,
    }
}

/// The acknowledgment for a document appended to a file.
pub open spec fn file_saved_text(path: Seq<char>) -> Seq<char> {
    "the item has been saved to the file: "@ + path
}

/// The failure for a document that could not be appended to a file.
pub open spec fn file_failed_fault(complaint: Seq<char>) -> Fault {
    Fault {
        reason: "error occurred while appending to the file: "@ + complaint,
        tpe: GenErrorType::Sender,
    }
}

/// The failure for a file destination whose path is a folder.
pub open spec fn not_a_file_fault(path: Seq<char>) -> Fault {
    Fault {
        reason: "the output path "@ + path + " should point to a file not to a folder."@,
        tpe: GenErrorType::Sender,
    }
}

/// What is to be done with a folder destination's path.
pub open spec fn folder_preparation(path: Seq<char>, found: PathState) -> Result<
    Preparation,
    Fault,
> {
    match found {
        PathState::Directory => Ok(Preparation::Ready),
        PathState::Missing => Ok(Preparation::Create),
        PathState::File => Err(not_a_folder_fault(path)),
    }
}

/// What is to be done with a file destination's path.
pub open spec fn file_preparation(path: Seq<char>, found: PathState) -> Result<
    Preparation,
    Fault,
> {
    match found {
        PathState::File => Ok(Preparation::Ready),
        PathState::Missing => Ok(Preparation::Create),
        PathState::Directory => Err(not_a_file_fault(path)),
    }
}

/// What reporting a write to a folder destination gives.
pub open spec fn folder_outcome(idx: nat, path: Seq<char>, written: Result<(), Seq<char>>) -> Result<
    Seq<char>,
    Fault,
> {
    match written {
        Ok(_) => Ok(folder_saved_text(idx, path)),
        Err(complaint) => Err(folder_failed_fault(complaint)),
    }
}

/// What reporting a write to a file destination gives.
pub open spec fn file_outcome(path: Seq<char>, written: Result<(), Seq<char>>) -> Result<
    Seq<char>,
    Fault,
> {
    match written {
        Ok(_) => Ok(file_saved_text(path)),
        Err(complaint) => Err(file_failed_fault(complaint)),
    }
}

/// What a report of a write stands for in contracts.
pub open spec fn written_view(written: Result<(), String>) -> Result<(), Seq<char>> {
    match written {
        Ok(_) => Ok(()),
        Err(complaint) => Err(complaint@),
    }
}

/// What an acknowledgment or failure stands for in contracts.
pub open spec fn outcome_view(r: Result<String, GenError>) -> Result<Seq<char>, Fault> {
    match r {
        Ok(text) => Ok(text@),
        Err(e) => Err(e@),
    }
}

impl FolderSender {
    /// The folder that the documents go to.
    pub closed spec fn path(&self) -> Seq<char> {
        self.path@
    }

    /// The number of documents saved so far, which is the number of the
    /// next file.
    pub closed spec fn idx(&self) -> nat {
        self.idx as nat
    }

    /// A destination that has saved nothing yet.
    pub fn new(path: String) -> (sender: Self)
        ensures
            sender.path() == path@,
            sender.idx() == 0,
    {
        FolderSender { path, idx: 0 }
    }

    /// What is to be done with the path before the first document: a
    /// folder is used as it is, a missing one is to be created, and a file
    /// in its place is a failure.
    pub fn prepare(path: &str, found: PathState) -> (r: Result<Preparation, GenError>)
        ensures
            match r {
                Ok(todo) => folder_preparation(path@, found) == Ok::<Preparation, Fault>(todo),
                Err(e) => folder_preparation(path@, found) == Err::<Preparation, Fault>(e@),
            },
    {
        match found {
            PathState::Directory => Ok(Preparation::Ready),
            PathState::Missing => Ok(Preparation::Create),
            PathState::File => {
                let reason = String::from_str("the output path ").concat(path).concat(
                    " to the file should point to a folder.",
                );
                Err(GenError::new_with_in_sender(reason.as_str()))
            },
        }
    }

    /// The folder that the documents go to.
    pub fn folder(&self) -> (path: &str)
        ensures
            path@ == self.path(),
    {
        self.path.as_str()
    }

    /// The number of documents saved so far.
    pub fn saved(&self) -> (idx: usize)
        ensures
            idx == self.idx(),
    {
        self.idx
    }

    /// The name, inside the folder, of the file for the next document.
    pub fn file_name(&self) -> (name: String)
        ensures
            name@ == folder_file_name(self.idx()),
    {
        String::from_str("json_").concat(decimal(self.idx as u64).as_str()).concat(".json")
    }

    /// Takes the report of the write of the next document. A write that
    /// went well is acknowledged and counted; one that failed is a failure,
    /// and the count stays.
    pub fn sent(&mut self, written: Result<(), String>) -> (r: Result<String, GenError>)
        requires
            old(self).idx() < usize::MAX,
        ensures
            outcome_view(r) == folder_outcome(
                old(self).idx(),
                old(self).path(),
                written_view(written),
            ),
            final(self).path() == old(self).path(),
            final(self).idx() == if written is Ok {
                old(self).idx() + 1
            } else {
                old(self).idx()
            },
    {
        match written {
            Ok(_) => {
                let text = String::from_str("the item ").concat(
                    decimal(self.idx as u64).as_str(),
                ).concat(" has been saved in the folder: ").concat(self.path.as_str());
                self.idx = self.idx + 1;
                Ok(text)
            },
            Err(complaint) => {
                let reason = String::from_str("error while appending to a file: ").concat(
                    complaint.as_str(),
                );
                Err(GenError::new_with_in_sender(reason.as_str()))
            },
        }
    }
}

impl FileSender {
    /// The file that the documents go to.
    pub closed spec fn path(&self) -> Seq<char> {
        self.path@
    }

    /// A destination for the file at `path`.
    pub fn new(path: String) -> (sender: Self)
        ensures
            sender.path() == path@,
    {
        FileSender { path }
    }

    /// What is to be done with the path before the first document: a file
    /// is used as it is, a missing one is to be created, and a folder in
    /// its place is a failure.
    pub fn prepare(path: &str, found: PathState) -> (r: Result<Preparation, GenError>)
        ensures
            match r {
                Ok(todo) => file_preparation(path@, found) == Ok::<Preparation, Fault>(todo),
                Err(e) => file_preparation(path@, found) == Err::<Preparation, Fault>(e@),
            },
    {
        match found {
            PathState::File => Ok(Preparation::Ready),
            PathState::Missing => Ok(Preparation::Create),
            PathState::Directory => {
                let reason = String::from_str("the output path ").concat(path).concat(
                    " should point to a file not to a folder.",
                );
                Err(GenError::new_with_in_sender(reason.as_str()))
            },
        }
    }

    /// The file that the documents go to.
    pub fn file(&self) -> (path: &str)
        ensures
            path@ == self.path(),
    {
        self.path.as_str()
    }

    /// Takes the report of the write of a document.
    pub fn sent(&self, written: Result<(), String>) -> (r: Result<String, GenError>)
        ensures
            outcome_view(r) == file_outcome(self.path(), written_view(written)),
    {
        match written {
            Ok(_) => Ok(
                String::from_str("the item has been saved to the file: ").concat(
                    self.path.as_str(),
                ),
            ),
            Err(complaint) => {
                let reason = String::from_str(
                    "error occurred while appending to the file: ",
                ).concat(complaint.as_str());
                Err(GenError::new_with_in_sender(reason.as_str()))
            },
        }
    }
}

} // verus!
