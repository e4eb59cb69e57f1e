//! The audit-log handler registry.
//!
//! Handlers are registered as regular-expression patterns matched against
//! a log's type tag.  The registry decides which registered handlers a
//! freshly appended log is for, in registration order; running the
//! handler callbacks themselves is the caller's business (they are
//! arbitrary host code), so a failing handler can never block the append
//! or the handlers after it.

use vstd::prelude::*;

use crate::api::Error;

verus! {

/// Whether `pat` is a valid regular expression, as the regex engine
/// decides it.  Fixed by the regex crate; nothing here defines it.
pub uninterp spec fn regex_valid(pat: Seq<char>) -> bool;

/// Whether the pattern `pat` matches somewhere in `text`, as the regex
/// engine decides it for a valid pattern.  Fixed by the regex crate.
pub uninterp spec fn regex_match(pat: Seq<char>, text: Seq<char>) -> bool;

/// A pattern together with its compiled form.  Values exist only through
/// `compile_pat`, so the two fields always belong together.
struct CompiledPat {
    pattern: String,
    re: regex::Regex,
}

/// The compiled matcher type of the regex crate, declared so fields may
/// hold one; it is opaque here.
#[verifier::external_type_specification]
#[verifier::external_body]
pub struct ExRegex(regex::Regex);

/// Relies on `regex::Regex::new`: it succeeds exactly on the patterns the
/// regex engine accepts, and the compiled value is the pattern's matcher.
#[verifier::external_body]
fn compile_pat(pat: &str) -> (r: Option<CompiledPat>)
    ensures
        r matches Some(c) ==> c.pattern@ == pat@ && regex_valid(pat@),
        r is None ==> !regex_valid(pat@),
{
    match regex::Regex::new(pat) {
        Ok(re) => Some(CompiledPat { pattern: pat.to_owned(), re }),
        Err(_) => None,
    }
}

/// Relies on `regex::Regex::is_match`: whether the pattern matches
/// somewhere in `text`, a function of the pattern and the text alone.
/// Sound because a `CompiledPat` is only ever built by `compile_pat` from
/// its own pattern.
#[verifier::external_body]
fn pat_is_match(c: &CompiledPat, text: &str) -> (r: bool)
    ensures
        r == regex_match(c.pattern@, text@),
{
    c.re.is_match(text)
}

/// The registered handler patterns, in registration order.
pub struct LogHandlers {
    entries: Vec<CompiledPat>,
}

impl View for LogHandlers {
    type V = Seq<Seq<char>>;

    closed spec fn view(&self) -> Seq<Seq<char>> {
        Seq::new(self.entries@.len(), |i: int| self.entries@[i].pattern@)
    }
}

impl LogHandlers {
    pub fn new() -> (r: LogHandlers)
        ensures
            r@ == Seq::<Seq<char>>::empty(),
    {
        let r = LogHandlers { entries: Vec::new() };
        proof {
            assert(r@ =~= Seq::<Seq<char>>::empty());
        }
        r
    }

    /// Register a handler pattern.  An invalid pattern is rejected at
    /// registration time with `Regex`, and nothing is registered.
    pub fn add_native(&mut self, pat: &str) -> (r: Result<(), Error>)
        ensures
            regex_valid(pat@) ==> r is Ok && final(self)@ == old(self)@.push(pat@),
            !regex_valid(pat@) ==> (r matches Err(e) && e matches Error::Regex(p) && p@ == pat@
                && final(self)@ == old(self)@),
    {
        match compile_pat(pat) {
            Some(c) => {
                self.entries.push(c);
                proof {
                    assert(final(self)@ =~= old(self)@.push(pat@));
                }
                Ok(())
            },
            None => Err(Error::Regex(pat.to_owned())),
        }
    }

    pub fn len(&self) -> (r: usize)
        ensures
            r == self@.len(),
    {
        self.entries.len()
    }

    /// The indices of the handlers whose pattern matches the type tag, in
    /// registration order: exactly those with `regex_match`, ascending.
    pub fn matching(&self, typ: &str) -> (r: Vec<usize>)
        ensures
            forall|j: int|
                0 <= j < r@.len() ==> r@[j] < self@.len() && regex_match(
                    self@[r@[j] as int],
                    typ@,
                ),
            forall|i: int|
                0 <= i < self@.len() && regex_match(self@[i], typ@) ==> r@.contains(i as usize),
            forall|a: int, b: int| 0 <= a < b < r@.len() ==> r@[a] < r@[b],
    {
        let n = self.entries.len();
        let mut out: Vec<usize> = Vec::new();
        let mut i: usize = 0;
        while i < n
            invariant
                0 <= i <= n,
                n == self@.len(),
                forall|j: int|
                    0 <= j < out@.len() ==> out@[j] < i && regex_match(
                        self@[out@[j] as int],
                        typ@,
                    ),
                forall|k: int|
                    0 <= k < i && regex_match(self@[k], typ@) ==> out@.contains(k as usize),
                forall|a: int, b: int| 0 <= a < b < out@.len() ==> out@[a] < out@[b],
            decreases n - i,
        {
            if pat_is_match(&self.entries[i], typ) {
                let ghost pre = out@;
                out.push(i);
                proof {
                    assert(out@ == pre.push(i));
                    assert forall|k: int|
                        0 <= k < i + 1 && regex_match(self@[k], typ@) implies out@.contains(
                        k as usize,
                    ) by {
                        if k < i {
                            assert(pre.contains(k as usize));
                            let j = choose|j: int| 0 <= j < pre.len() && pre[j] == k as usize;
                            assert(out@[j] == k as usize);
                        } else {
                            assert(out@[pre.len() as int] == i);
                        }
                    }
                }
            }
            i = i + 1;
        }
        out
    }
}

} // verus!
