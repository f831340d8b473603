//! The decisions of the invocation protocol: what a guest hands back to
//! its host for a call, and what a sub-invocation yields. Moving bytes
//! across the boundary is left to the caller, which hands the bytes here.
use vstd::prelude::*;
use vstd::string::StringExecFns;
use vstd::utf8::{decode_utf8, valid_utf8};

use crate::read_decoder::string_from_utf8;
use crate::sorted_map::same_text;

verus! {

/// A call's method name and argument bytes.
#[derive(Clone, Debug)]
pub struct InvokeArgs {
    pub method: String,
    pub args: Vec<u8>,
}

/// What a dispatch hands to the host: the result bytes on success, or an
/// error message.
#[derive(Clone, Debug)]
pub enum InvokeReply {
    Result(Vec<u8>),
    Error(String),
}

/// A buffer of exactly `len` zero bytes, for the host to copy into.
pub fn alloc_exact(len: u32) -> (r: Vec<u8>)
    ensures
        r@.len() == len,
        forall|i: int| 0 <= i < len ==> r@[i] == 0,
{
    let mut v: Vec<u8> = Vec::new();
    let mut i: u32 = 0;
    while i < len
        invariant
            i <= len,
            v@.len() == i,
            forall|j: int| 0 <= j < i ==> v@[j] == 0,
        decreases len - i,
    {
        v.push(0);
        i = i + 1;
    }
    v
}

impl InvokeArgs {
    /// The arguments of a call from the two buffers the host filled; the
    /// method name must be UTF-8.
    pub fn from_host(method: Vec<u8>, args: Vec<u8>) -> (r: Option<InvokeArgs>)
        ensures
            r is Some <==> valid_utf8(method@),
            r matches Some(a) ==> a.method@ == decode_utf8(method@) && a.args@ == args@,
    {
        match string_from_utf8(method) {
            Some(name) => Some(InvokeArgs { method: name, args }),
            None => None,
        }
    }
}

/// The index of the first registered method of that name.
pub fn lookup_method(methods: &Vec<String>, name: &str) -> (r: Option<usize>)
    ensures
        r matches Some(i) ==> i < methods@.len() && methods@[i as int]@ == name@ && forall|j: int|
            0 <= j < i ==> methods@[j]@ != name@,
        r is None ==> forall|j: int| 0 <= j < methods@.len() ==> methods@[j]@ != name@,
{
    let mut i: usize = 0;
    while i < methods.len()
        invariant
            i <= methods@.len(),
            forall|j: int| 0 <= j < i ==> methods@[j]@ != name@,
        decreases methods@.len() - i,
    {
        if same_text(methods[i].as_str(), name) {
            return Some(i);
        }
        i = i + 1;
    }
    None
}

/// The message for a method that no handler serves.
pub open spec fn missing_method_message(method: Seq<char>) -> Seq<char> {
    "Could not find invoke function "@ + method
}

/// The reply to a call: the handler's output where a handler was found,
/// else an error naming the method.
pub fn invoke_reply(method: &str, output: Option<Vec<u8>>) -> (r: InvokeReply)
    ensures
        output matches Some(b) ==> (r matches InvokeReply::Result(x) && x@ == b@),
        output is None ==> (r matches InvokeReply::Error(m) && m@ == missing_method_message(
            method@,
        )),
{
    match output {
        Some(bytes) => InvokeReply::Result(bytes),
        None => {
            let mut message = "Could not find invoke function ".to_string();
            message.append(method);
            InvokeReply::Error(message)
        },
    }
}

impl InvokeReply {
    /// Whether the call succeeded.
    pub fn is_success(&self) -> (r: bool)
        ensures
            r == (self is Result),
    {
        match self {
            InvokeReply::Result(_) => true,
            InvokeReply::Error(_) => false,
        }
    }
}

/// Which of the host's two channels a sub-invocation's answer is on.
#[derive(Clone, Copy, Debug, PartialEq, Eq, Structural)]
pub enum Channel {
    Result,
    Error,
}

/// The channel to ask for the length of, and then to copy from, once the
/// host's call primitive has answered with its success flag.
pub fn subinvoke_channel(success: bool) -> (r: Channel)
    ensures
        r == (if success {
            Channel::Result
        } else {
            Channel::Error
        }),
{
    if success {
        Channel::Result
    } else {
        Channel::Error
    }
}

/// What a sub-invocation yields once the host has answered and copied the
/// result (on success) or the error message (on failure) into a buffer of
/// the length it announced: the bytes exactly, or the message.
pub fn subinvoke_outcome(success: bool, len: u32, copied: Vec<u8>) -> (r: Result<Vec<u8>, String>)
    requires
        copied@.len() == len,
    ensures
        success ==> (r matches Ok(b) && b@ == copied@ && b@.len() == len),
        !success ==> r is Err,
        !success && valid_utf8(copied@) ==> (r matches Err(m) && m@ == decode_utf8(copied@)),
        !success && !valid_utf8(copied@) ==> (r matches Err(m) && m@
            == "sub-invocation error message is not valid UTF-8"@),
{
    if success {
        Ok(copied)
    } else {
        match string_from_utf8(copied) {
            Some(message) => Err(message),
            None => {
                proof {
                    reveal_strlit("sub-invocation error message is not valid UTF-8");
                }
                Err("sub-invocation error message is not valid UTF-8".to_string())
            },
        }
    }
}

} // verus!
