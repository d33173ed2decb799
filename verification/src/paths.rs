//! Paths of the game's files on the device.

use vstd::prelude::*;
use crate::text::{push_char, push_str};
use crate::text::text_eq;

verus! {

/// The parts of `s` between slashes, as `str::split('/')` gives them: an
/// empty text gives one empty part, and each slash starts a new part.
pub open spec fn split_slash(s: Seq<char>) -> Seq<Seq<char>>
    decreases s.len(),
{
    if s.len() == 0 {
        seq![Seq::<char>::empty()]
    } else {
        let p = split_slash(s.drop_last());
        if s.last() == '/' {
            p.push(Seq::<char>::empty())
        } else {
            p.update(p.len() - 1, p.last().push(s.last()))
        }
    }
}

proof fn lemma_split_nonempty(s: Seq<char>)
    ensures
        split_slash(s).len() >= 1,
    decreases s.len(),
{
    if s.len() > 0 {
        lemma_split_nonempty(s.drop_last());
    }
}

/// The parts of `s` between slashes.
pub fn split_slash_parts(s: &str) -> (r: Vec<String>)
    ensures
        r@.len() == split_slash(s@).len(),
        forall|i: int| 0 <= i < r@.len() ==> (#[trigger] r@[i])@ == split_slash(s@)[i],
{
    let n = s.unicode_len();
    let mut done: Vec<String> = Vec::new();
    let mut cur = String::new();
    let mut i: usize = 0;
    while i < n
        invariant
            i <= n,
            n == s@.len(),
            done@.len() + 1 == split_slash(s@.take(i as int)).len(),
            forall|k: int| 0 <= k < done@.len() ==> (#[trigger] done@[k])@ == split_slash(s@.take(i as int))[k],
            cur@ == split_slash(s@.take(i as int)).last(),
        decreases n - i,
    {
        let c = s.get_char(i);
        proof {
            assert(s@.take(i + 1).drop_last() =~= s@.take(i as int));
            assert(s@.take(i + 1).last() == c);
            lemma_split_nonempty(s@.take(i as int));
        }
        if c == '/' {
            let finished = cur;
            done.push(finished);
            cur = String::new();
            assert(cur@ =~= Seq::<char>::empty());
        } else {
            push_char(&mut cur, c);
        }
        i = i + 1;
    }
    assert(s@.take(n as int) =~= s@);
    done.push(cur);
    done
}

/// The app's folder in the shared storage for the app data folder
/// `data_path` of the form `/data/user/<user>/<package>/...`:
/// `/storage/emulated/<user>/Android/data/<package>/files`, where a file
/// manager reaches it without root; `None` for another form.
pub open spec fn spec_external_dir(data_path: Seq<char>) -> Option<Seq<char>> {
    let parts = split_slash(data_path);
    if parts.len() >= 5 && parts[1] == "data"@ && parts[2] == "user"@ && parts[3].len() > 0 && parts[4].len() > 0 {
        Some("/storage/emulated/"@ + parts[3] + "/Android/data/"@ + parts[4] + "/files"@)
    } else {
        None
    }
}

/// The app's folder in the shared storage (see [`spec_external_dir`]).
pub fn android_external_dir(data_path: &str) -> (r: Option<String>)
    ensures
        match r {
            Some(d) => spec_external_dir(data_path@) == Some(d@),
            None => spec_external_dir(data_path@) is None,
        },
{
    let parts = split_slash_parts(data_path);
    if parts.len() >= 5 && text_eq(parts[1].as_str(), "data") && text_eq(parts[2].as_str(), "user") {
        let user = parts[3].as_str();
        let pkg = parts[4].as_str();
        if user.unicode_len() > 0 && pkg.unicode_len() > 0 {
            let mut out = String::new();
            push_str(&mut out, "/storage/emulated/");
            push_str(&mut out, user);
            push_str(&mut out, "/Android/data/");
            push_str(&mut out, pkg);
            push_str(&mut out, "/files");
            assert(out@ =~= "/storage/emulated/"@ + parts@[3]@ + "/Android/data/"@ + parts@[4]@ + "/files"@);
            return Some(out);
        }
    }
    None
}

} // verus!
