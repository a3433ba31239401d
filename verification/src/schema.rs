//! The transaction-code-to-name lookup the Transaction assembler queries.
//!
//! The mapping is supplied by the caller as an explicit value (for instance
//! loaded from a resource file at startup) rather than looked up in ambient
//! global state; queries are exact-match only, and an absent code is not an
//! error but falls back to the display name `"unidentified"`.

use vstd::prelude::*;
use crate::text::str_eq;

verus! {

/// A read-only mapping from transaction-code string to display-name string.
#[derive(Clone, Debug, PartialEq)]
pub struct SchemaTable {
    /// Code/name pairs, queried front to back; the first match wins.
    pub entries: Vec<(String, String)>,
}

impl View for SchemaTable {
    type V = Seq<(Seq<char>, Seq<char>)>;

    open spec fn view(&self) -> Seq<(Seq<char>, Seq<char>)> {
        self.entries.deep_view()
    }
}

/// The name paired with the first entry whose code is `code`, if any.
pub open spec fn lookup_spec(entries: Seq<(Seq<char>, Seq<char>)>, code: Seq<char>) -> Option<
    Seq<char>,
>
    decreases entries.len(),
{
    if entries.len() == 0 {
        None
    } else if entries[0].0 == code {
        Some(entries[0].1)
    } else {
        lookup_spec(entries.drop_first(), code)
    }
}

/// The display name `code` resolves to: the looked-up name, or
/// `"unidentified"` when the table has no entry for it.
pub open spec fn name_of(entries: Seq<(Seq<char>, Seq<char>)>, code: Seq<char>) -> Seq<char> {
    match lookup_spec(entries, code) {
        Some(n) => n,
        None => "unidentified"@,
    }
}

/// A code no entry carries looks up to nothing.
pub proof fn lemma_lookup_absent(entries: Seq<(Seq<char>, Seq<char>)>, code: Seq<char>)
    requires
        forall|k: int| 0 <= k < entries.len() ==> (#[trigger] entries[k]).0 != code,
    ensures
        lookup_spec(entries, code) is None,
    decreases entries.len(),
{
    if entries.len() > 0 {
        lemma_lookup_absent(entries.drop_first(), code);
    }
}

/// The law of lookup fallback: a code the table holds no entry for resolves
/// to the display name `"unidentified"`.
pub proof fn lemma_unknown_code_unidentified(
    entries: Seq<(Seq<char>, Seq<char>)>,
    code: Seq<char>,
)
    requires
        forall|k: int| 0 <= k < entries.len() ==> (#[trigger] entries[k]).0 != code,
    ensures
        name_of(entries, code) == "unidentified"@,
{
    lemma_lookup_absent(entries, code);
}

impl SchemaTable {
    /// An empty table; every code then resolves to the fallback name.
    pub fn new() -> (r: SchemaTable)
        ensures
            r@ == Seq::<(Seq<char>, Seq<char>)>::empty(),
    {
        let r = SchemaTable { entries: Vec::new() };
        proof {
            assert(r@ =~= Seq::<(Seq<char>, Seq<char>)>::empty());
        }
        r
    }

    /// Append one code/name pair to the table.
    pub fn insert(&mut self, code: String, name: String)
        ensures
            final(self)@ == old(self)@.push((code@, name@)),
    {
        let ghost old_view = self@;
        let ghost pair_view = (code@, name@);
        self.entries.push((code, name));
        proof {
            assert(self@ =~= old_view.push(pair_view));
        }
    }

    /// The display name `code` resolves to, with the `"unidentified"`
    /// fallback for a code the table does not hold.
    pub fn resolve(&self, code: &str) -> (r: String)
        ensures
            r@ == name_of(self@, code@),
    {
        let n = self.entries.len();
        let mut i: usize = 0;
        proof {
            assert(self@.skip(0) =~= self@);
        }
        while i < n
            invariant
                0 <= i <= n,
                n == self.entries.len(),
                self@.len() == n,
                lookup_spec(self@, code@) == lookup_spec(self@.skip(i as int), code@),
            decreases n - i,
        {
            if str_eq(self.entries[i].0.as_str(), code) {
                proof {
                    assert(self@.skip(i as int)[0] == self@[i as int]);
                }
                return self.entries[i].1.clone();
            }
            proof {
                assert(self@.skip(i as int)[0] == self@[i as int]);
                assert(self@.skip(i as int).drop_first() =~= self@.skip(i as int + 1));
            }
            i = i + 1;
        }
        proof {
            assert(self@.skip(n as int) =~= Seq::<(Seq<char>, Seq<char>)>::empty());
        }
        "unidentified".to_owned()
    }
}

} // verus!
