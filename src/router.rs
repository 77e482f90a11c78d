use vstd::prelude::*;
use vstd::string::*;

use crate::naming::{
    request_file_name, request_file_name_spec, response_file_name, response_file_name_spec,
};

verus! {

/// The path of `name` inside the directory `dir`: a separator is put between them
/// unless `dir` is empty or already ends with one; an absolute `name` stands alone.
pub open spec fn join_path(dir: Seq<char>, name: Seq<char>) -> Seq<char> {
    if name.len() > 0 && name[0] == '/' {
        name
    } else if dir.len() == 0 || dir.last() == '/' {
        dir + name
    } else {
        dir + seq!['/'] + name
    }
}

/// Writes the path of `name` inside the directory `dir`.
pub fn join(dir: &str, name: &str) -> (r: String)
    ensures
        r@ == join_path(dir@, name@),
{
    let name_len = name.unicode_len();
    if name_len > 0 && name.get_char(0) == '/' {
        return String::from_str(name);
    }
    let dir_len = dir.unicode_len();
    if dir_len == 0 || dir.get_char(dir_len - 1) == '/' {
        String::from_str(dir).concat(name)
    } else {
        proof {
            reveal_strlit("/");
        }
        let r = String::from_str(dir).concat("/").concat(name);
        assert(r@ =~= dir@ + seq!['/'] + name@);
        r
    }
}

/// Where the logs of one conversation go: a directory under the configured base.
pub struct RequestLogger {
    conversation_dir: String,
}

/// The files of one attempt: the request record to write and where, and where the
/// response events go.
pub struct AttemptFiles {
    pub request_path: String,
    pub request_text: String,
    pub response_path: String,
}

impl RequestLogger {
    /// The conversation directory as text.
    pub closed spec fn dir(&self) -> Seq<char> {
        self.conversation_dir@
    }

    /// The logger of a conversation under the configured base directory, or `None`
    /// when no base directory is configured, in which case logging is off. The
    /// conversation's directory is the conversation id joined to the base.
    pub fn from_env(base_dir: Option<&str>, conversation_id: &str) -> (r: Option<RequestLogger>)
        ensures
            base_dir is None <==> r is None,
            r is Some ==> r->0.dir() == join_path(base_dir->0@, conversation_id@),
    {
        match base_dir {
            None => None,
            Some(base) => Some(RequestLogger { conversation_dir: join(base, conversation_id) }),
        }
    }

    /// The directory that holds the conversation's files.
    pub fn conversation_dir(&self) -> (r: &str)
        ensures
            r@ == self.dir(),
    {
        self.conversation_dir.as_str()
    }

    /// Path of the request record of an attempt.
    pub fn request_path(&self, attempt: u64) -> (r: String)
        ensures
            r@ == join_path(self.dir(), request_file_name_spec(attempt as nat)),
    {
        join(self.conversation_dir.as_str(), request_file_name(attempt).as_str())
    }

    /// Path of the response event stream of an attempt.
    pub fn response_path(&self, attempt: u64) -> (r: String)
        ensures
            r@ == join_path(self.dir(), response_file_name_spec(attempt as nat)),
    {
        join(self.conversation_dir.as_str(), response_file_name(attempt).as_str())
    }

    /// The files of an attempt: both paths, and the request record stamped with the
    /// current time.
    pub fn prepare_attempt(&self, attempt: u64, url: &str, payload: &serde_json::Value) -> (r:
        AttemptFiles)
        ensures
            r.request_path@ == join_path(self.dir(), request_file_name_spec(attempt as nat)),
            r.response_path@ == join_path(self.dir(), response_file_name_spec(attempt as nat)),
            exists|ts: Seq<char>, p: Seq<char>|
                r.request_text@ == crate::record::request_record_spec(ts, attempt as nat, url@, p),
    {
        AttemptFiles {
            request_path: self.request_path(attempt),
            request_text: crate::record::request_record(attempt, url, payload),
            response_path: self.response_path(attempt),
        }
    }
}

} // verus!
