//! The grammar of quoted command lines: a line is a sequence of words,
//! quoted strings and runs of white space, with nothing left over. A quoted
//! string is either the text between two quotes (in which `\"` stands for
//! a quote), or a word that runs into a quote: `world"` is the quoted
//! string `world`, the quote closing it.

use crate::text::{chars_of, is_white_space, is_whitespace};
use vstd::prelude::*;

verus! {

/// A piece of a command line.
#[derive(Clone, Debug, PartialEq, Eq)]
pub enum Node {
    /// Characters other than white space and quotes.
    Word(String),
    /// The text between two quotes, with `\"` read as a quote, or a word
    /// closed by the quote it runs into.
    Quoted(String),
    /// A run of white space.
    Space,
}

/// A piece of a command line, as characters.
pub enum NodeSpec {
    Word(Seq<char>),
    Quoted(Seq<char>),
    Space,
}

impl Node {
    pub open spec fn view_spec(&self) -> NodeSpec {
        match self {
            Node::Word(w) => NodeSpec::Word(w@),
            Node::Quoted(q) => NodeSpec::Quoted(q@),
            Node::Space => NodeSpec::Space,
        }
    }
}

/// Whether `c` can be part of a word.
pub open spec fn is_word_char(c: char) -> bool {
    !is_white_space(c) && c != '"'
}

/// How many word characters start at position `i` of `s`.
pub open spec fn word_len(s: Seq<char>, i: int) -> int
    decreases s.len() - i,
{
    if 0 <= i < s.len() && is_word_char(s[i]) {
        1 + word_len(s, i + 1)
    } else {
        0
    }
}

/// How many white-space characters start at position `i` of `s`.
pub open spec fn space_len(s: Seq<char>, i: int) -> int
    decreases s.len() - i,
{
    if 0 <= i < s.len() && is_white_space(s[i]) {
        1 + space_len(s, i + 1)
    } else {
        0
    }
}

/// The text of a quoted string whose body starts at position `i` of `s`,
/// and the position where the body ends (the closing quote, or the end of
/// `s` when there is none).
pub open spec fn quoted_body(s: Seq<char>, i: int) -> (Seq<char>, int)
    decreases s.len() - i,
{
    if i < 0 || i >= s.len() {
        (Seq::empty(), i)
    } else if s[i] == '\\' && i + 1 < s.len() && s[i + 1] == '"' {
        let (c, j) = quoted_body(s, i + 2);
        (seq!['"'] + c, j)
    } else if s[i] != '"' {
        let (c, j) = quoted_body(s, i + 1);
        (seq![s[i]] + c, j)
    } else {
        (Seq::empty(), i)
    }
}

/// The pieces of `s` from position `i` on, or `None` if a quote opens a
/// string that no later quote closes. A word that runs into a quote is
/// quoted, and that quote is consumed.
pub open spec fn lex_from(s: Seq<char>, i: int) -> Option<Seq<NodeSpec>>
    decreases s.len() - i,
{
    if i < 0 || i >= s.len() {
        Some(Seq::empty())
    } else if is_white_space(s[i]) {
        let n = space_len(s, i);
        if n <= 0 {
            None
        } else {
            proof {
                lemma_space_len_bounds(s, i);
            }
            prepend(NodeSpec::Space, lex_from(s, i + n))
        }
    } else if s[i] != '"' {
        let n = word_len(s, i);
        if n <= 0 {
            None
        } else {
            proof {
                lemma_word_len_bounds(s, i);
            }
            if i + n < s.len() && s[i + n] == '"' {
                prepend(NodeSpec::Quoted(s.subrange(i, i + n)), lex_from(s, i + n + 1))
            } else {
                prepend(NodeSpec::Word(s.subrange(i, i + n)), lex_from(s, i + n))
            }
        }
    } else {
        let (c, j) = quoted_body(s, i + 1);
        if i < j < s.len() {
            prepend(NodeSpec::Quoted(c), lex_from(s, j + 1))
        } else {
            None
        }
    }
}

/// `n` in front of `rest`, if there is a rest.
pub open spec fn prepend(n: NodeSpec, rest: Option<Seq<NodeSpec>>) -> Option<Seq<NodeSpec>> {
    match rest {
        Some(r) => Some(seq![n] + r),
        None => None,
    }
}

/// `done` followed by `rest`, if there is a rest.
pub open spec fn join(done: Seq<NodeSpec>, rest: Option<Seq<NodeSpec>>) -> Option<Seq<NodeSpec>> {
    match rest {
        Some(r) => Some(done + r),
        None => None,
    }
}

/// A word starting at `i` ends within the line.
pub proof fn lemma_word_len_bounds(s: Seq<char>, i: int)
    ensures
        0 <= word_len(s, i),
        0 <= i <= s.len() ==> i + word_len(s, i) <= s.len(),
    decreases s.len() - i,
{
    if 0 <= i < s.len() && is_word_char(s[i]) {
        lemma_word_len_bounds(s, i + 1);
    }
}

/// A run of white space starting at `i` ends within the line.
pub proof fn lemma_space_len_bounds(s: Seq<char>, i: int)
    ensures
        0 <= space_len(s, i),
        0 <= i <= s.len() ==> i + space_len(s, i) <= s.len(),
    decreases s.len() - i,
{
    if 0 <= i < s.len() && is_white_space(s[i]) {
        lemma_space_len_bounds(s, i + 1);
    }
}

proof fn lemma_quoted_bounds(s: Seq<char>, i: int)
    requires
        0 <= i,
    ensures
        i <= quoted_body(s, i).1,
        i <= s.len() ==> quoted_body(s, i).1 <= s.len(),
        quoted_body(s, i).1 < s.len() ==> s[quoted_body(s, i).1] == '"',
    decreases s.len() - i,
{
    if i < s.len() {
        if s[i] == '\\' && i + 1 < s.len() && s[i + 1] == '"' {
            lemma_quoted_bounds(s, i + 2);
        } else if s[i] != '"' {
            lemma_quoted_bounds(s, i + 1);
        }
    }
}

/// The pieces of a command line, or `None` when a quoted string is left
/// open.
pub fn command(line: &str) -> (r: Option<Vec<Node>>)
    ensures
        match r {
            Some(v) => lex_from(line@, 0) == Some(v@.map_values(|n: Node| n.view_spec())),
            None => lex_from(line@, 0) is None,
        },
{
    let s = chars_of(line);
    let ghost sv = s@;
    let n = s.len();
    let mut out: Vec<Node> = Vec::new();
    let mut i: usize = 0;
    proof {
        assert(out@.map_values(|n: Node| n.view_spec()) =~= Seq::<NodeSpec>::empty());
        assert(join(Seq::<NodeSpec>::empty(), lex_from(sv, 0)) == lex_from(sv, 0)) by {
            match lex_from(sv, 0) {
                Some(r) => {
                    assert(Seq::<NodeSpec>::empty() + r =~= r);
                },
                None => {},
            }
        }
    }
    while i < n
        invariant
            i <= n == sv.len(),
            s@ == sv,
            sv == line@,
            lex_from(sv, 0) == join(out@.map_values(|n: Node| n.view_spec()), lex_from(sv, i as int)),
        decreases n - i,
    {
        let ghost done = out@.map_values(|n: Node| n.view_spec());
        let c = s[i];
        if is_whitespace(c) {
            let mut j = i;
            while j < n && is_whitespace(s[j])
                invariant
                    i <= j <= n == sv.len(),
                    s@ == sv,
                    space_len(sv, i as int) == (j - i) + space_len(sv, j as int),
                decreases n - j,
            {
                j = j + 1;
            }
            proof {
                lemma_space_len_bounds(sv, j as int);
                assert(space_len(sv, j as int) == 0);
                assert(lex_from(sv, i as int) == prepend(NodeSpec::Space, lex_from(sv, j as int)));
            }
            out.push(Node::Space);
            proof {
                let after = out@.map_values(|n: Node| n.view_spec());
                assert(after =~= done.push(NodeSpec::Space));
                match lex_from(sv, j as int) {
                    Some(r) => {
                        assert(done + (seq![NodeSpec::Space] + r) =~= after + r);
                    },
                    None => {},
                }
            }
            i = j;
        } else if c != '"' {
            let mut j = i;
            while j < n && !is_whitespace(s[j]) && s[j] != '"'
                invariant
                    i <= j <= n == sv.len(),
                    s@ == sv,
                    word_len(sv, i as int) == (j - i) + word_len(sv, j as int),
                decreases n - j,
            {
                j = j + 1;
            }
            proof {
                lemma_word_len_bounds(sv, j as int);
                assert(word_len(sv, j as int) == 0);
            }
            let w = crate::text::string_of(s.as_slice(), i, j);
            if j < n && s[j] == '"' {
                out.push(Node::Quoted(w));
                proof {
                    let after = out@.map_values(|n: Node| n.view_spec());
                    assert(after =~= done.push(NodeSpec::Quoted(sv.subrange(i as int, j as int))));
                    match lex_from(sv, j + 1) {
                        Some(r) => {
                            assert(done + (seq![NodeSpec::Quoted(sv.subrange(i as int, j as int))] + r) =~= after + r);
                        },
                        None => {},
                    }
                }
                i = j + 1;
            } else {
                out.push(Node::Word(w));
                proof {
                    let after = out@.map_values(|n: Node| n.view_spec());
                    assert(after =~= done.push(NodeSpec::Word(sv.subrange(i as int, j as int))));
                    match lex_from(sv, j as int) {
                        Some(r) => {
                            assert(done + (seq![NodeSpec::Word(sv.subrange(i as int, j as int))] + r) =~= after + r);
                        },
                        None => {},
                    }
                }
                i = j;
            }
        } else {
            let mut body = String::new();
            let mut j = i + 1;
            while j < n && s[j] != '"'
                invariant
                    i + 1 <= j <= n == sv.len(),
                    s@ == sv,
                    quoted_body(sv, i + 1) == (body@ + quoted_body(sv, j as int).0, quoted_body(sv, j as int).1),
                decreases n - j,
            {
                let ghost b0 = body@;
                if s[j] == '\\' && j + 1 < n && s[j + 1] == '"' {
                    crate::text::push_char(&mut body, '"');
                    proof {
                        assert(b0.push('"') + quoted_body(sv, j + 2).0 =~= b0 + (seq!['"'] + quoted_body(sv, j + 2).0));
                    }
                    j = j + 2;
                } else {
                    crate::text::push_char(&mut body, s[j]);
                    proof {
                        assert(b0.push(sv[j as int]) + quoted_body(sv, j + 1).0 =~= b0 + (seq![sv[j as int]] + quoted_body(sv, j + 1).0));
                    }
                    j = j + 1;
                }
            }
            proof {
                assert(quoted_body(sv, j as int).0 =~= Seq::<char>::empty());
                assert(body@ + Seq::<char>::empty() =~= body@);
            }
            if j >= n {
                proof {
                    assert(quoted_body(sv, i + 1).1 == j);
                    assert(lex_from(sv, i as int) is None);
                }
                return None;
            }
            proof {
                assert(lex_from(sv, i as int) == prepend(NodeSpec::Quoted(body@), lex_from(sv, j + 1)));
            }
            out.push(Node::Quoted(body));
            proof {
                let after = out@.map_values(|n: Node| n.view_spec());
                assert(after =~= done.push(NodeSpec::Quoted(body@)));
                match lex_from(sv, j + 1) {
                    Some(r) => {
                        assert(done + (seq![NodeSpec::Quoted(body@)] + r) =~= after + r);
                    },
                    None => {},
                }
            }
            i = j + 1;
        }
    }
    proof {
        let done = out@.map_values(|n: Node| n.view_spec());
        assert(done + Seq::<NodeSpec>::empty() =~= done);
    }
    Some(out)
}

} // verus!
