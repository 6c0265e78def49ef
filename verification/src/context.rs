//! The context: the caller-supplied key-value data against which variable
//! identifiers are resolved during rendering.

use vstd::prelude::*;

use crate::util::str_eq;

verus! {

/// A context value. The engine substitutes string values; a value of any
/// other kind can be stored and looked up, but substituting it fails.
#[derive(Debug)]
pub enum ContextValue {
    /// A string value, substitutable into the output.
    Text(String),
    /// A value of any non-string kind (number, boolean, null, array,
    /// object): present in the context, rejected at substitution time.
    Other,
}

/// A mapping from string keys to context values. Later insertions of the
/// same key override earlier ones. Read-only for the duration of a render
/// call.
#[derive(Debug)]
pub struct Context {
    pairs: Vec<(String, ContextValue)>,
}

/// The mapping that a sequence of key-value pairs denotes, later pairs
/// overriding earlier ones.
spec fn pairs_map(s: Seq<(String, ContextValue)>) -> Map<Seq<char>, ContextValue>
    decreases s.len(),
{
    if s.len() == 0 {
        Map::empty()
    } else {
        pairs_map(s.drop_last()).insert(s.last().0@, s.last().1)
    }
}

/// If no pair at or after position `i` holds `key`, the pairs before `i`
/// already decide what the whole mapping holds at `key`.
proof fn lemma_pairs_map_absent(s: Seq<(String, ContextValue)>, i: int, key: Seq<char>)
    requires
        0 <= i <= s.len(),
        forall|k: int| i <= k < s.len() ==> s[k].0@ != key,
    ensures
        pairs_map(s).contains_key(key) == pairs_map(s.take(i)).contains_key(key),
        pairs_map(s).contains_key(key) ==> pairs_map(s)[key] == pairs_map(s.take(i))[key],
    decreases s.len() - i,
{
    if i == s.len() {
        assert(s.take(i) =~= s);
    } else {
        lemma_pairs_map_absent(s, i + 1, key);
        assert(s.take(i + 1).drop_last() =~= s.take(i));
        assert(s.take(i + 1).last() == s[i]);
    }
}

impl View for Context {
    type V = Map<Seq<char>, ContextValue>;

    closed spec fn view(&self) -> Map<Seq<char>, ContextValue> {
        pairs_map(self.pairs@)
    }
}

impl Context {
    /// An empty context.
    pub fn new() -> (r: Context)
        ensures
            r@ == Map::<Seq<char>, ContextValue>::empty(),
    {
        Context { pairs: Vec::new() }
    }

    /// Bind `key` to `value`, overriding any earlier binding of `key`.
    pub fn insert(&mut self, key: String, value: ContextValue)
        ensures
            final(self)@ == old(self)@.insert(key@, value),
    {
        let ghost old_pairs = self.pairs@;
        self.pairs.push((key, value));
        proof {
            assert(self.pairs@.drop_last() =~= old_pairs);
        }
    }

    /// Look `key` up, yielding the value it is bound to, if any.
    pub fn get(&self, key: &str) -> (r: Option<&ContextValue>)
        ensures
            (match r {
                Some(v) => self@.contains_key(key@) && *v == self@[key@],
                None => !self@.contains_key(key@),
            }),
    {
        let n = self.pairs.len();
        let mut j = n;
        while j > 0
            invariant
                j <= n,
                n == self.pairs@.len(),
                forall|k: int| j <= k < n ==> self.pairs@[k].0@ != key@,
            decreases j,
        {
            j = j - 1;
            if str_eq(self.pairs[j].0.as_str(), key) {
                proof {
                    lemma_pairs_map_absent(self.pairs@, j + 1, key@);
                    assert(self.pairs@.take(j + 1).drop_last() =~= self.pairs@.take(j as int));
                    assert(self.pairs@.take(j + 1).last() == self.pairs@[j as int]);
                }
                return Some(&self.pairs[j].1);
            }
        }
        proof {
            lemma_pairs_map_absent(self.pairs@, 0, key@);
            assert(self.pairs@.take(0).len() == 0);
        }
        None
    }
}

} // verus!
