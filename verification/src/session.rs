//! One interactive lookup session, as a presentation layer drives it: the
//! line currently displayed and the append-only history of successful
//! lookups. The session owns the decisions; rendering stays outside.

use crate::dictionary::{not_found_text, resolve, spec_resolve, ResolveError, WordMapping};
use vstd::prelude::*;

verus! {

/// The neutral text shown before any successful lookup and after an empty
/// query.
pub open spec fn placeholder_text() -> Seq<char> {
    "IPA translation will appear here."@
}

fn placeholder() -> (r: String)
    ensures
        r@ == placeholder_text(),
{
    "IPA translation will appear here.".to_owned()
}

/// A lookup session: what is displayed, and every successful lookup so far
/// as (query, transcription) pairs, oldest first.
pub struct Session {
    pub history: Vec<(String, String)>,
    pub display: String,
}

impl Session {
    /// A fresh session: empty history, neutral display.
    pub fn new() -> (r: Session)
        ensures
            r.history@.len() == 0,
            r.display@ == placeholder_text(),
    {
        Session { history: Vec::new(), display: placeholder() }
    }

    /// Handle a submitted query. An empty query resets the display and
    /// touches nothing else; a hit displays the transcription and appends
    /// the pair to the history; a miss displays the not-found message and
    /// leaves the history alone. The history only ever grows at the end.
    pub fn submit(&mut self, word: &str, mapping: &WordMapping)
        ensures
            word@.len() == 0 ==> final(self).history == old(self).history && final(self).display@
                == placeholder_text(),
            word@.len() > 0 ==> match spec_resolve(word@, mapping@) {
                Ok(t) => final(self).history.deep_view() == old(self).history.deep_view().push(
                    (word@, t),
                ) && final(self).display@ == t,
                Err(orig) => final(self).history == old(self).history && final(self).display@
                    == not_found_text(word@),
            },
            old(self).history.deep_view().is_prefix_of(final(self).history.deep_view()),
    {
        if word.is_empty() {
            self.display = placeholder();
            proof {
                let ghost h = self.history.deep_view();
                assert(h.take(h.len() as int) =~= h);
            }
            return ;
        }
        match resolve(word, mapping) {
            Ok(ipa) => {
                self.display = ipa.clone();
                self.history.push((word.to_owned(), ipa));
                proof {
                    let ghost h0 = old(self).history.deep_view();
                    let ghost t = spec_resolve(word@, mapping@)->Ok_0;
                    assert(self.history.deep_view() =~= h0.push((word@, t)));
                    assert(h0.is_prefix_of(self.history.deep_view())) by {
                        assert(self.history.deep_view().take(h0.len() as int) =~= h0);
                    }
                }
            },
            Err(e) => {
                match &e {
                    ResolveError::WordNotFound(_) => {
                        self.display = e.message();
                    },
                }
                proof {
                    let ghost h = self.history.deep_view();
                    assert(h.take(h.len() as int) =~= h);
                }
            },
        }
    }
}

} // verus!
