//! Command lines and command sets.
//!
//! A player's input line is split into a command word and its arguments; the
//! command word is matched against the keys of a [`CommandSet`] by prefix,
//! so that any unambiguous abbreviation of a command finds it. Arguments are
//! split into words on spaces.

use crate::text::{chars_of, string_of, trim_bounds, trimmed};
use radix_trie::Trie;
use radix_trie::TrieCommon;
use vstd::prelude::*;

verus! {

#[verifier::external_type_specification]
#[verifier::external_body]
#[verifier::reject_recursive_types(K)]
#[verifier::reject_recursive_types(V)]
pub struct ExTrie<K, V>(Trie<K, V>);

/// What a command trie holds: each stored key, with the value stored for it.
pub uninterp spec fn trie_contents(t: Trie<String, String>) -> Map<Seq<char>, Seq<char>>;

/// `Trie::new`: an empty trie.
#[verifier::external_body]
fn trie_new() -> (t: Trie<String, String>)
    ensures
        trie_contents(t).dom() == Set::<Seq<char>>::empty(),
{
    Trie::new()
}

/// `Trie::insert`: stores `value` under `key`, replacing any value stored
/// there, and returns the replaced value.
#[verifier::external_body]
fn trie_insert(t: &mut Trie<String, String>, key: String, value: String) -> (prev: Option<String>)
    ensures
        trie_contents(*final(t)) == trie_contents(*old(t)).insert(key@, value@),
        match prev {
            Some(p) => trie_contents(*old(t)).contains_key(key@) && p@ == trie_contents(*old(t))[key@],
            None => !trie_contents(*old(t)).contains_key(key@),
        },
{
    t.insert(key, value)
}

/// Whether `k` is the key that `Trie::get_raw_descendant(q)` stops at for a
/// nonempty `q`: a stored key that extends `q` and is a prefix of every
/// stored key that extends `q`.
pub open spec fn is_closest_key(keys: Set<Seq<char>>, q: Seq<char>, k: Seq<char>) -> bool {
    &&& keys.contains(k)
    &&& q.is_prefix_of(k)
    &&& forall|k2: Seq<char>| keys.contains(k2) && q.is_prefix_of(k2) ==> k.is_prefix_of(k2)
}

/// The key whose value `get_raw_descendant(q).value()` returns. For the empty
/// query that is the empty key, if stored. Otherwise the descent stops at
/// the node that holds all keys extending `q`; that node carries a value
/// exactly when the longest common prefix of those keys is itself a key.
pub open spec fn closest_key(keys: Set<Seq<char>>, q: Seq<char>) -> Option<Seq<char>> {
    if q.len() == 0 {
        if keys.contains(q) {
            Some(q)
        } else {
            None
        }
    } else if exists|k: Seq<char>| is_closest_key(keys, q, k) {
        Some(choose|k: Seq<char>| is_closest_key(keys, q, k))
    } else {
        None
    }
}

/// `Trie::get_raw_descendant` followed by `SubTrie::value`: the value of the
/// closest node at or below the query. The trie is a radix trie over the
/// key's bytes; the contract states, over the stored keys, the node that
/// the descent in `traversal.rs` stops at (see [`closest_key`]).
#[verifier::external_body]
fn trie_closest_value(t: &Trie<String, String>, q: &str) -> (v: Option<String>)
    ensures
        match closest_key(trie_contents(*t).dom(), q@) {
            Some(k) => v is Some && v->0@ == trie_contents(*t)[k],
            None => v is None,
        },
{
    t.get_raw_descendant(q).and_then(|st| st.value().cloned())
}

/// `TrieCommon::keys`: every stored key, each once.
#[verifier::external_body]
fn trie_keys(t: &Trie<String, String>) -> (ks: Vec<String>)
    ensures
        ks@.len() == trie_contents(*t).dom().len(),
        forall|i: int| 0 <= i < ks@.len() ==> trie_contents(*t).contains_key(#[trigger] ks@[i]@),
        forall|i: int, j: int| 0 <= i < j < ks@.len() ==> ks@[i]@ != ks@[j]@,
{
    t.keys().cloned().collect()
}

/// The commands available to one player, by their full key.
pub struct CommandSet {
    commands: Trie<String, String>,
}

impl View for CommandSet {
    type V = Set<Seq<char>>;

    closed spec fn view(&self) -> Set<Seq<char>> {
        trie_contents(self.commands).dom()
    }
}

impl CommandSet {
    #[verifier::type_invariant]
    closed spec fn wf(self) -> bool {
        &&& trie_contents(self.commands).dom().finite()
        &&& forall|k: Seq<char>| #[trigger]
            trie_contents(self.commands).contains_key(k) ==> trie_contents(self.commands)[k] == k
    }

    /// A set without commands.
    pub fn new() -> (s: CommandSet)
        ensures
            s@ == Set::<Seq<char>>::empty(),
    {
        CommandSet { commands: trie_new() }
    }

    /// Adds the command with key `key`.
    pub fn add_command(&mut self, key: &str)
        ensures
            final(self)@ == old(self)@.insert(key@),
    {
        proof {
            use_type_invariant(&*self);
        }
        let k = key.to_owned();
        let v = key.to_owned();
        let mut commands = trie_new();
        std::mem::swap(&mut commands, &mut self.commands);
        trie_insert(&mut commands, k, v);
        self.commands = commands;
    }

    /// The command that `cmd_string` selects: the command whose key it is,
    /// or else the one command of which it abbreviates every key it
    /// abbreviates. `None` when no key starts with `cmd_string`, or when
    /// the keys that do have no shortest member that all others extend.
    pub fn lookup(&self, cmd_string: &str) -> (r: Option<String>)
        ensures
            match closest_key(self@, cmd_string@) {
                Some(k) => r is Some && r->0@ == k,
                None => r is None,
            },
    {
        proof {
            use_type_invariant(self);
        }
        trie_closest_value(&self.commands, cmd_string)
    }

    /// The keys of all commands, each once.
    pub fn commands(&self) -> (ks: Vec<String>)
        ensures
            ks@.len() == self@.len(),
            forall|i: int| 0 <= i < ks@.len() ==> self@.contains(#[trigger] ks@[i]@),
            forall|i: int, j: int| 0 <= i < j < ks@.len() ==> ks@[i]@ != ks@[j]@,
    {
        trie_keys(&self.commands)
    }

    /// Adds every command of `other`.
    pub fn merge(&mut self, other: &Vec<String>)
        ensures
            final(self)@ == old(self)@.union(keys_of(other@)),
    {
        let ghost start = self@;
        let mut i: usize = 0;
        while i < other.len()
            invariant
                i <= other.len(),
                self@ == start.union(keys_of(other@.take(i as int))),
            decreases other.len() - i,
        {
            self.add_command(other[i].as_str());
            proof {
                assert(keys_of(other@.take(i + 1)) =~= keys_of(other@.take(i as int)).insert(
                    other@[i as int]@,
                )) by {
                    assert forall|k: Seq<char>| keys_of(other@.take(i + 1)).contains(k) implies keys_of(
                        other@.take(i as int),
                    ).insert(other@[i as int]@).contains(k) by {
                        let j = choose|j: int|
                            0 <= j < other@.take(i + 1).len() && #[trigger] other@.take(i + 1)[j]@ == k;
                        if j < i {
                            assert(other@.take(i as int)[j] == other@.take(i + 1)[j]);
                        }
                    }
                    assert forall|k: Seq<char>| keys_of(other@.take(i as int)).insert(
                        other@[i as int]@,
                    ).contains(k) implies keys_of(other@.take(i + 1)).contains(k) by {
                        if k == other@[i as int]@ {
                            assert(other@.take(i + 1)[i as int] == other@[i as int]);
                        } else {
                            let j = choose|j: int|
                                0 <= j < other@.take(i as int).len() && #[trigger] other@.take(
                                    i as int,
                                )[j]@ == k;
                            assert(other@.take(i + 1)[j] == other@.take(i as int)[j]);
                        }
                    }
                }
                assert(self@ =~= start.union(keys_of(other@.take(i + 1))));
            }
            i = i + 1;
        }
        proof {
            assert(other@.take(other@.len() as int) =~= other@);
        }
    }

    /// A set holding every command of `keys`.
    pub fn from_keys(keys: &Vec<String>) -> (s: CommandSet)
        ensures
            s@ == keys_of(keys@),
    {
        let mut s = CommandSet::new();
        s.merge(keys);
        proof {
            assert(s@ =~= keys_of(keys@));
        }
        s
    }
}

/// The keys that the strings of `v` spell.
pub open spec fn keys_of(v: Seq<String>) -> Set<Seq<char>> {
    Set::new(|k: Seq<char>| exists|i: int| 0 <= i < v.len() && #[trigger] v[i]@ == k)
}

/// Index of the first `c` in `s`, if any.
pub open spec fn first_index_of(s: Seq<char>, c: char) -> Option<int>
    decreases s.len(),
{
    if s.len() == 0 {
        None
    } else if s[0] == c {
        Some(0)
    } else {
        match first_index_of(s.drop_first(), c) {
            Some(i) => Some(i + 1),
            None => None,
        }
    }
}

/// A command line split at its first space into the trimmed command word
/// and the trimmed rest; a line without a space is all command word.
pub open spec fn command_line_parts(line: Seq<char>) -> (Seq<char>, Seq<char>) {
    match first_index_of(line, ' ') {
        Some(i) => (trimmed(line.subrange(0, i)), trimmed(line.subrange(i + 1, line.len() as int))),
        None => (trimmed(line), Seq::empty()),
    }
}

proof fn lemma_first_index_scan(s: Seq<char>, c: char, i: int)
    requires
        0 <= i <= s.len(),
        forall|j: int| 0 <= j < i ==> s[j] != c,
    ensures
        i < s.len() && s[i] == c ==> first_index_of(s, c) == Some(i),
        i == s.len() ==> first_index_of(s, c) is None,
    decreases i,
{
    if i > 0 {
        assert forall|j: int| 0 <= j < i - 1 implies s.drop_first()[j] != c by {
            assert(s.drop_first()[j] == s[j + 1]);
        }
        lemma_first_index_scan(s.drop_first(), c, i - 1);
        if i < s.len() {
            assert(s.drop_first()[i - 1] == s[i]);
        }
    }
}

/// Splits an input line into the command word and its argument string.
pub fn split_command_line(line: &str) -> (parts: (String, String))
    ensures
        (parts.0@, parts.1@) == command_line_parts(line@),
{
    let v = chars_of(line);
    let n = v.len();
    let mut i: usize = 0;
    while i < n && v[i] != ' '
        invariant
            i <= n == v@.len(),
            forall|j: int| 0 <= j < i ==> v@[j] != ' ',
        decreases n - i,
    {
        i = i + 1;
    }
    proof {
        lemma_first_index_scan(v@, ' ', i as int);
    }
    if i < n {
        let (a, b) = trim_bounds(v.as_slice(), 0, i);
        let (c, d) = trim_bounds(v.as_slice(), i + 1, n);
        (string_of(v.as_slice(), a, b), string_of(v.as_slice(), c, d))
    } else {
        let (a, b) = trim_bounds(v.as_slice(), 0, n);
        proof {
            assert(v@.subrange(0, n as int) =~= v@);
        }
        (string_of(v.as_slice(), a, b), String::new())
    }
}

/// The pieces of `s` between occurrences of `c` (one piece when `c` does not
/// occur), as `str::split` yields them.
pub open spec fn split_on(s: Seq<char>, c: char) -> Seq<Seq<char>>
    decreases s.len(),
{
    if s.len() == 0 {
        seq![Seq::empty()]
    } else {
        let rest = split_on(s.drop_first(), c);
        if s[0] == c {
            seq![Seq::<char>::empty()] + rest
        } else {
            rest.update(0, seq![s[0]] + rest[0])
        }
    }
}

/// The trimmed pieces that are not empty.
pub open spec fn nonempty_trimmed(ps: Seq<Seq<char>>) -> Seq<Seq<char>>
    decreases ps.len(),
{
    if ps.len() == 0 {
        Seq::empty()
    } else {
        let r = nonempty_trimmed(ps.drop_last());
        let t = trimmed(ps.last());
        if t.len() > 0 {
            r.push(t)
        } else {
            r
        }
    }
}

/// The words of an argument string: split on spaces, each piece trimmed,
/// empty pieces dropped.
pub open spec fn argument_words(s: Seq<char>) -> Seq<Seq<char>> {
    nonempty_trimmed(split_on(s, ' '))
}

/// Splitting yields at least one piece.
pub(crate) proof fn lemma_split_on_len(s: Seq<char>, c: char)
    ensures
        split_on(s, c).len() >= 1,
    decreases s.len(),
{
    if s.len() > 0 {
        lemma_split_on_len(s.drop_first(), c);
    }
}

/// Splits an argument string into its words.
pub fn argument_words_of(s: &str) -> (words: Vec<String>)
    ensures
        words@.map_values(|w: String| w@) == argument_words(s@),
{
    let v = chars_of(s);
    let n = v.len();
    let mut words: Vec<String> = Vec::new();
    let ghost mut done: Seq<Seq<char>> = Seq::empty();
    let mut start: usize = 0;
    let mut i: usize = 0;
    proof {
        lemma_split_on_len(v@.subrange(0, n as int), ' ');
        assert(v@.subrange(0, n as int) =~= v@);
    }
    while i < n
        invariant
            start <= i <= n == v@.len(),
            v@ == s@,
            split_on(v@, ' ') == done + seq![
                v@.subrange(start as int, i as int) + split_on(v@.subrange(i as int, n as int), ' ')[0],
            ] + split_on(v@.subrange(i as int, n as int), ' ').drop_first(),
            words@.map_values(|w: String| w@) == nonempty_trimmed(done),
        decreases n - i,
    {
        let ghost rest = v@.subrange(i as int, n as int);
        let ghost rest1 = v@.subrange(i + 1, n as int);
        proof {
            assert(rest.drop_first() =~= rest1);
            lemma_split_on_len(rest1, ' ');
        }
        if v[i] == ' ' {
            let (a, b) = trim_bounds(v.as_slice(), start, i);
            if a < b {
                let w = string_of(v.as_slice(), a, b);
                words.push(w);
            }
            proof {
                let p = v@.subrange(start as int, i as int);
                assert(split_on(rest, ' ') == seq![Seq::<char>::empty()] + split_on(rest1, ' '));
                assert(p + Seq::<char>::empty() =~= p);
                assert(done.push(p).drop_last() =~= done);
                assert(v@.subrange(i + 1, i + 1) =~= Seq::<char>::empty());
                assert(Seq::<char>::empty() + split_on(rest1, ' ')[0] =~= split_on(rest1, ' ')[0]);
                assert(split_on(v@, ' ') =~= done.push(p) + seq![
                    v@.subrange(i + 1, i + 1) + split_on(rest1, ' ')[0],
                ] + split_on(rest1, ' ').drop_first());
                assert(words@.map_values(|w: String| w@) =~= nonempty_trimmed(done.push(p)));
                done = done.push(p);
            }
            start = i + 1;
        } else {
            proof {
                let r1 = split_on(rest1, ' ');
                assert(split_on(rest, ' ') == r1.update(0, seq![v@[i as int]] + r1[0]));
                assert(v@.subrange(start as int, i + 1) =~= v@.subrange(start as int, i as int).push(
                    v@[i as int],
                ));
                assert(v@.subrange(start as int, i as int) + (seq![v@[i as int]] + r1[0])
                    =~= v@.subrange(start as int, i + 1) + r1[0]);
                assert(r1.update(0, seq![v@[i as int]] + r1[0]).drop_first() =~= r1.drop_first());
            }
        }
        i = i + 1;
    }
    let (a, b) = trim_bounds(v.as_slice(), start, n);
    if a < b {
        let w = string_of(v.as_slice(), a, b);
        words.push(w);
    }
    proof {
        let p = v@.subrange(start as int, n as int);
        assert(v@.subrange(n as int, n as int) =~= Seq::<char>::empty());
        assert(split_on(Seq::<char>::empty(), ' ') == seq![Seq::<char>::empty()]);
        assert(p + Seq::<char>::empty() =~= p);
        assert(split_on(v@, ' ') =~= done.push(p));
        assert(done.push(p).drop_last() =~= done);
        assert(words@.map_values(|w: String| w@) =~= nonempty_trimmed(done.push(p)));
    }
    words
}

/// A command is always found by its full key, however many longer keys
/// extend it.
pub proof fn lemma_full_key_found(keys: Set<Seq<char>>, k: Seq<char>)
    requires
        keys.contains(k),
    ensures
        closest_key(keys, k) == Some(k),
{
    if k.len() > 0 {
        assert(is_closest_key(keys, k, k)) by {
            assert(k.is_prefix_of(k));
        }
        let c = choose|c: Seq<char>| is_closest_key(keys, k, c);
        assert(c.is_prefix_of(k));
        assert(k.is_prefix_of(c));
        assert(c =~= k);
    }
}

/// An abbreviation that only one command extends finds that command.
pub proof fn lemma_unique_completion(keys: Set<Seq<char>>, q: Seq<char>, k: Seq<char>)
    requires
        q.len() > 0,
        keys.contains(k),
        q.is_prefix_of(k),
        forall|k2: Seq<char>| keys.contains(k2) && q.is_prefix_of(k2) ==> k2 == k,
    ensures
        closest_key(keys, q) == Some(k),
{
    assert(k.is_prefix_of(k));
    assert(is_closest_key(keys, q, k));
    let c = choose|c: Seq<char>| is_closest_key(keys, q, c);
    assert(c == k);
}

/// Whatever a lookup finds is a command whose key starts with what was
/// typed.
pub proof fn lemma_found_extends_query(keys: Set<Seq<char>>, q: Seq<char>)
    requires
        closest_key(keys, q) is Some,
    ensures
        keys.contains(closest_key(keys, q)->0),
        q.is_prefix_of(closest_key(keys, q)->0),
{
    if q.len() == 0 {
        assert(q.is_prefix_of(q));
    }
}

} // verus!
