//! The messages exchanged with the remote (XGE) test launcher, and how the
//! launcher turns them into commands and results.
use vstd::prelude::*;
use crate::config::lemma_texts_push;
use crate::text::{chars_of, decimal, decimal_chars, extend_chars, replace_spec, str_replace, string_from_chars, texts};

verus! {

/// A request to run one command remotely; `id` identifies the test in the reply.
pub struct StreamRequest {
    pub id: u64,
    pub title: String,
    pub cwd: String,
    pub command: Vec<String>,
    pub local: bool,
    pub single: bool,
}

/// The outcome of one remote command.
pub struct StreamResult {
    pub id: u64,
    pub exit_code: i32,
    pub stdout: String,
}

/// The arguments of `xgSubmit` for `request`: its caption (the title with spaces
/// made underscores), `/allowremote=off` for a local request, then `/command`,
/// the launcher itself (`this_exe`) in wrapping mode `w` with the request's id,
/// and the request's command.
pub open spec fn submit_arguments_spec(request: StreamRequest, this_exe: Seq<char>) -> Seq<Seq<char>> {
    seq!["/caption="@ + replace_spec(request.title@, " "@, "_"@)]
        + (if request.local { seq!["/allowremote=off"@] } else { seq![] })
        + seq!["/command"@, this_exe, "w"@, decimal(request.id as nat)]
        + texts(request.command@)
}

/// The arguments of `xgSubmit` for `request` (see `submit_arguments_spec`).
pub fn submit_arguments(request: &StreamRequest, this_exe: &str) -> (r: Vec<String>)
    ensures
        texts(r@) == submit_arguments_spec(*request, this_exe@),
{
    let mut r: Vec<String> = Vec::new();
    let caption = str_replace(request.title.as_str(), " ", "_");
    let mut fv = chars_of("/caption=");
    let cv = chars_of(caption.as_str());
    extend_chars(&mut fv, &cv);
    let first = string_from_chars(&fv);
    let ghost g0 = r@;
    r.push(first);
    proof { lemma_texts_push(g0, r@.last()); }
    let ghost before_local = texts(r@);
    if request.local {
        let ghost g = r@;
        r.push("/allowremote=off".to_string());
        proof { lemma_texts_push(g, r@.last()); }
    }
    assert(texts(r@) =~= before_local + (if request.local { seq!["/allowremote=off"@] } else { seq![] }));
    let ghost g1 = r@;
    r.push("/command".to_string());
    proof { lemma_texts_push(g1, r@.last()); }
    let ghost g2 = r@;
    r.push(this_exe.to_string());
    proof { lemma_texts_push(g2, r@.last()); }
    let ghost g3 = r@;
    r.push("w".to_string());
    proof { lemma_texts_push(g3, r@.last()); }
    let idv = decimal_chars(request.id);
    let id = string_from_chars(&idv);
    let ghost g4 = r@;
    r.push(id);
    proof { lemma_texts_push(g4, r@.last()); }
    let ghost head = texts(r@);
    let mut i: usize = 0;
    while i < request.command.len()
        invariant
            i <= request.command@.len(),
            texts(r@) == head + texts(request.command@.take(i as int)),
        decreases request.command@.len() - i,
    {
        let ghost g = r@;
        r.push(request.command[i].clone());
        proof { lemma_texts_push(g, r@.last()); }
        assert(texts(request.command@.take(i + 1)) =~= texts(request.command@.take(i as int)).push(request.command@[i as int]@));
        assert(texts(r@) =~= head + texts(request.command@.take(i + 1)));
        i += 1;
    }
    assert(request.command@.take(request.command@.len() as int) =~= request.command@);
    assert(texts(r@) =~= submit_arguments_spec(*request, this_exe@));
    r
}

/// What the launcher reports of a command it ran: its exit code (-7787 where the
/// process gave none), and its error output followed by its standard output.
pub fn wrapped_result(id: u64, exit_code: Option<i32>, stdout: &str, stderr: &str) -> (r: StreamResult)
    ensures
        r.id == id,
        r.exit_code == (match exit_code {
            Some(c) => c,
            None => -7787i32,
        }),
        r.stdout@ == stderr@ + stdout@,
{
    let mut v = chars_of(stderr);
    let o = chars_of(stdout);
    extend_chars(&mut v, &o);
    let code = match exit_code {
        Some(c) => c,
        None => -7787,
    };
    StreamResult { id, exit_code: code, stdout: string_from_chars(&v) }
}

} // verus!
