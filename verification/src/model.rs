//! The record types of the store — threads and replies — their
//! mathematical models, validation, and the error taxonomy.

use vstd::prelude::*;
use vstd::utf8::encode_utf8;
use vstd::utf8::valid_utf8;

verus! {

/// A discussion thread record.
///
/// `last_updated` is a signed unix timestamp, bumped on every accepted
/// reply; `image_url` is an already-written relative URL handed in by the
/// caller, never touched by this crate.
#[derive(Debug)]
pub struct Thread {
    pub id: i32,
    pub title: String,
    pub message: String,
    pub last_updated: i64,
    pub image_url: Option<String>,
}

/// A reply record; its id is unique only within its parent thread's scope.
#[derive(Debug)]
pub struct Reply {
    pub id: i32,
    pub message: String,
}

/// Mathematical model of a thread record.
#[verifier::ext_equal]
pub struct ThreadModel {
    pub id: int,
    pub title: Seq<char>,
    pub message: Seq<char>,
    pub last_updated: int,
    pub image_url: Option<Seq<char>>,
}

/// Mathematical model of a reply record.
#[verifier::ext_equal]
pub struct ReplyModel {
    pub id: int,
    pub message: Seq<char>,
}

impl View for Thread {
    type V = ThreadModel;

    open spec fn view(&self) -> ThreadModel {
        ThreadModel {
            id: self.id as int,
            title: self.title@,
            message: self.message@,
            last_updated: self.last_updated as int,
            image_url: match self.image_url {
                Option::None => Option::<Seq<char>>::None,
                Option::Some(u) => Option::Some(u@),
            },
        }
    }
}

impl View for Reply {
    type V = ReplyModel;

    open spec fn view(&self) -> ReplyModel {
        ReplyModel { id: self.id as int, message: self.message@ }
    }
}

impl Clone for Thread {
    fn clone(&self) -> (r: Self)
        ensures
            r@ == self@,
    {
        let r = Thread {
            id: self.id,
            title: self.title.clone(),
            message: self.message.clone(),
            last_updated: self.last_updated,
            image_url: match &self.image_url {
                Option::None => Option::None,
                Option::Some(u) => Option::Some(u.clone()),
            },
        };
        assert(r@ =~= self@);
        r
    }
}

impl Clone for Reply {
    fn clone(&self) -> (r: Self)
        ensures
            r@ == self@,
    {
        let r = Reply { id: self.id, message: self.message.clone() };
        assert(r@ =~= self@);
        r
    }
}

/// What a create-time failure means to the caller.
///
/// `Validation`: a required field was empty after trimming; the request is
/// a client error. `Storage`: the underlying engine reported an I/O
/// failure. `IdOverflow`: the count-derived next id would not fit in the
/// id type — a machine limit, unreachable in practice.
#[derive(Clone, Copy, PartialEq, Eq, Structural, Debug)]
pub enum RepoError {
    Validation,
    Storage,
    IdOverflow,
}

/// Outcome of reading one record: present and well-formed, absent, or
/// present but undecodable. Corrupt records collapse to "absent" only at
/// the repository boundary, never silently inside it.
pub enum RecordRead<T> {
    Found(T),
    Absent,
    Corrupt,
}

/// Name for what `str::trim` returns: the characters with leading and
/// trailing whitespace removed. The result depends on the characters
/// alone.
pub uninterp spec fn trim_of(s: Seq<char>) -> Seq<char>;

/// Relies on `str::trim` (and `str::to_owned`): returns the string
/// without leading or trailing whitespace.
#[verifier::external_body]
pub fn trim_string(s: &str) -> (r: String)
    ensures
        r@ == trim_of(s@),
{
    s.trim().to_owned()
}

/// Relies on `String::from_utf8`: succeeds exactly on valid UTF-8 input
/// and returns the string holding those very bytes.
#[verifier::external_body]
pub fn string_from_utf8(b: Vec<u8>) -> (r: Option<String>)
    ensures
        match r {
            Option::Some(s) => encode_utf8(s@) == b@,
            Option::None => !valid_utf8(b@),
        },
{
    String::from_utf8(b).ok()
}

} // verus!
