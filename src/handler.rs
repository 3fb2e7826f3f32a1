//! The context a function runs with, and the error a function reports.
use crate::http::{text_map, FezzResponse, StatusCode};
use crate::strmap::StrMap;
use crate::text::{concat, concat3, decimal, decimal_string};
use vstd::prelude::*;
use vstd::utf8::*;

verus! {

/// What a function sees of where it runs.
#[derive(Debug)]
pub struct FunctionContext {
    pub env: StrMap<String>,
    pub function_name: String,
    pub request_id: String,
}

impl FunctionContext {
    pub open spec fn wf(&self) -> bool {
        self.env.wf()
    }

    pub fn new(function_name: &str, request_id: &str) -> (c: FunctionContext)
        ensures
            c.wf(),
            c.env.view() == Map::<Seq<char>, String>::empty(),
            c.function_name@ == function_name@,
            c.request_id@ == request_id@,
    {
        FunctionContext {
            env: StrMap::new(),
            function_name: function_name.to_owned(),
            request_id: request_id.to_owned(),
        }
    }

    /// Sets an environment variable, replacing any earlier value.
    pub fn with_env(self, key: &str, value: &str) -> (c: FunctionContext)
        requires
            self.wf(),
        ensures
            c.wf(),
            text_map(c.env.view()) == text_map(self.env.view()).insert(key@, value@),
            c.function_name == self.function_name,
            c.request_id == self.request_id,
    {
        let mut s = self;
        let ghost before = s.env.view();
        s.env.insert(key.to_owned(), value.to_owned());
        proof {
            assert(text_map(s.env.view()) =~= text_map(before).insert(key@, value@));
        }
        s
    }

    pub fn get_env(&self, key: &str) -> (r: Option<&String>)
        requires
            self.wf(),
        ensures
            r is Some <==> self.env.view().contains_key(key@),
            r matches Some(v) ==> *v == self.env.view()[key@],
    {
        self.env.get(key)
    }

    /// A copy of this context for one request.
    pub fn for_request(&self, request_id: &str) -> (c: FunctionContext)
        requires
            self.wf(),
        ensures
            c.wf(),
            text_map(c.env.view()) == text_map(self.env.view()),
            c.function_name@ == self.function_name@,
            c.request_id@ == request_id@,
    {
        FunctionContext {
            env: copy_env(&self.env),
            function_name: self.function_name.clone(),
            request_id: request_id.to_owned(),
        }
    }
}

/// A copy of a text-to-text map.
pub fn copy_env(m: &StrMap<String>) -> (r: StrMap<String>)
    requires
        m.wf(),
    ensures
        r.wf(),
        text_map(r.view()) == text_map(m.view()),
{
    let v = m.as_vec();
    let mut out: StrMap<String> = StrMap::new();
    let mut i: usize = 0;
    proof {
        m.lemma_pairs();
    }
    while i < v.len()
        invariant
            m.wf(),
            out.wf(),
            v@ == m.pairs(),
            0 <= i <= v@.len(),
            forall|k: Seq<char>| #[trigger]
                out.view().contains_key(k) <==> exists|j: int| 0 <= j < i && v@[j].0@ == k,
            forall|k: Seq<char>| #[trigger]
                out.view().contains_key(k) ==> m.view().contains_key(k) && out.view()[k]@
                    == m.view()[k]@,
            forall|j: int|
                0 <= j < v@.len() ==> #[trigger] m.view().contains_key(v@[j].0@) && m.view()[v@[j].0@]
                    == v@[j].1,
            forall|k: Seq<char>|
                #[trigger] m.view().contains_key(k) ==> exists|j: int|
                    0 <= j < v@.len() && v@[j].0@ == k,
        decreases v@.len() - i,
    {
        let k = v[i].0.clone();
        let val = v[i].1.clone();
        let ghost before = out.view();
        out.insert(k, val);
        proof {
            assert forall|kk: Seq<char>| #[trigger]
                out.view().contains_key(kk) <==> exists|j: int| 0 <= j < i + 1 && v@[j].0@ == kk by {
                if out.view().contains_key(kk) && kk != v@[i as int].0@ {
                    assert(before.contains_key(kk));
                }
                if kk == v@[i as int].0@ {
                    assert(out.view().contains_key(kk));
                }
            }
        }
        i = i + 1;
    }
    proof {
        assert forall|k: Seq<char>| #[trigger] text_map(out.view()).contains_key(k)
            <==> text_map(m.view()).contains_key(k) by {
            if m.view().contains_key(k) {
                let j = choose|j: int| 0 <= j < v@.len() && v@[j].0@ == k;
                assert(out.view().contains_key(k));
            }
        }
        assert(text_map(out.view()) =~= text_map(m.view()));
    }
    out
}

/// An error a function reports: a message and the HTTP status it maps to.
#[derive(Debug)]
pub struct FezzError {
    pub message: String,
    pub code: u16,
}

impl FezzError {
    /// An internal error (500).
    pub fn new(message: &str) -> (e: FezzError)
        ensures
            e.message@ == message@,
            e.code == 500,
    {
        FezzError { message: message.to_owned(), code: 500 }
    }

    pub fn with_code(code: u16, message: &str) -> (e: FezzError)
        ensures
            e.message@ == message@,
            e.code == code,
    {
        FezzError { message: message.to_owned(), code }
    }

    /// A not-found error (404).
    pub fn not_found(message: &str) -> (e: FezzError)
        ensures
            e.message@ == message@,
            e.code == 404,
    {
        FezzError::with_code(404, message)
    }

    /// A bad-request error (400).
    pub fn bad_request(message: &str) -> (e: FezzError)
        ensures
            e.message@ == message@,
            e.code == 400,
    {
        FezzError::with_code(400, message)
    }

    /// The error as text: the code in brackets, a space, then the message.
    pub fn describe(&self) -> (r: String)
        ensures
            r@ == seq!['['] + decimal(self.code as nat) + seq![']', ' '] + self.message@,
    {
        proof {
            reveal_strlit("[");
            reveal_strlit("] ");
        }
        let head = concat3("[", decimal_string(self.code as u64).as_str(), "] ");
        let r = concat(head.as_str(), self.message.as_str());
        assert(r@ =~= seq!['['] + decimal(self.code as nat) + seq![']', ' '] + self.message@);
        r
    }

    pub fn clone_error(&self) -> (e: FezzError)
        ensures
            e.message@ == self.message@,
            e.code == self.code,
    {
        FezzError { message: self.message.clone(), code: self.code }
    }
}

/// The response an error becomes: its code as status, its message as a plain-text body.
pub fn error_response(err: FezzError) -> (r: FezzResponse)
    ensures
        r.wf(),
        r.status == StatusCode(err.code),
        (r.body matches Some(b) && b@ == encode_utf8(err.message@)),
{
    FezzResponse::error(StatusCode(err.code), err.message.as_str())
}

} // verus!
