//! Lua script assets: the shared strings that name scripts, the table that
//! interns them, the loader's errors, and the compiled script asset.
//!
//! Reading the script file and compiling it are done by the embedding
//! application; this module holds what the loader decides around them.

use std::sync::Arc;
use crate::text::{from_utf8_lossy, utf8_lossy};
use vstd::prelude::*;
use vstd::string::*;
use vstd::utf8::*;

verus! {

/// `Arc::clone`: another pointer to the same string.
#[verifier::external_body]
fn arc_clone(a: &Arc<String>) -> (r: Arc<String>)
    ensures
        r@ == a@,
{
    Arc::clone(a)
}

/// A shared, immutable string.
#[derive(Debug, PartialEq, Eq, PartialOrd, Ord, Hash)]
pub struct ArcString(Arc<String>);

impl View for ArcString {
    type V = Seq<char>;

    closed spec fn view(&self) -> Seq<char> {
        self.0@
    }
}

impl Clone for ArcString {
    fn clone(&self) -> (r: ArcString)
        ensures
            r@ == self@,
    {
        ArcString(arc_clone(&self.0))
    }
}

impl ArcString {
    /// A shared string holding `s`.
    pub fn new(s: String) -> (r: ArcString)
        ensures
            r@ == s@,
    {
        ArcString(Arc::new(s))
    }

    /// The text.
    pub fn as_str(&self) -> (s: &str)
        ensures
            s@ == self@,
    {
        self.0.as_str()
    }

    /// The UTF-8 bytes of the text.
    pub fn as_bytes(&self) -> (b: &[u8])
        ensures
            b@ == encode_utf8(self@),
    {
        self.0.as_str().as_bytes()
    }
}

/// The text that interning `bytes` gives: their UTF-8 decoding, with
/// replacement characters for invalid sequences.
pub open spec fn interned_text(bytes: Seq<u8>) -> Seq<char> {
    if valid_utf8(bytes) {
        decode_utf8(bytes)
    } else {
        utf8_lossy(bytes)
    }
}

/// Strings handed out once and shared from then on.
#[derive(Debug)]
pub struct ArcInterner {
    strings: Vec<ArcString>,
}

impl ArcInterner {
    /// The texts interned so far.
    pub closed spec fn texts(&self) -> Set<Seq<char>> {
        self.strings@.map_values(|s: ArcString| s@).to_set()
    }

    /// An interner holding nothing.
    pub fn new() -> (i: ArcInterner)
        ensures
            i.texts() == Set::<Seq<char>>::empty(),
    {
        let i = ArcInterner { strings: Vec::new() };
        assert(i.texts() =~= Set::<Seq<char>>::empty());
        i
    }

    fn find_bytes(&self, bytes: &[u8]) -> (r: Option<usize>)
        ensures
            match r {
                Some(i) => i < self.strings@.len() && encode_utf8(self.strings@[i as int]@) == bytes@,
                None => forall|i: int|
                    0 <= i < self.strings@.len() ==> encode_utf8(#[trigger] self.strings@[i]@) != bytes@,
            },
    {
        let mut i: usize = 0;
        while i < self.strings.len()
            invariant
                i <= self.strings@.len(),
                forall|k: int| 0 <= k < i ==> encode_utf8(#[trigger] self.strings@[k]@) != bytes@,
            decreases self.strings@.len() - i,
        {
            if bytes_eq(self.strings[i].as_bytes(), bytes) {
                return Some(i);
            }
            i = i + 1;
        }
        None
    }

    fn find_text(&self, s: &ArcString) -> (r: bool)
        ensures
            r == self.texts().contains(s@),
    {
        let mut i: usize = 0;
        while i < self.strings.len()
            invariant
                i <= self.strings@.len(),
                forall|k: int| 0 <= k < i ==> #[trigger] self.strings@[k]@ != s@,
            decreases self.strings@.len() - i,
        {
            if crate::names::str_eq(self.strings[i].as_str(), s.as_str()) {
                proof {
                    assert(self.strings@.map_values(|s: ArcString| s@)[i as int] == s@);
                }
                return true;
            }
            i = i + 1;
        }
        proof {
            let m = self.strings@.map_values(|s: ArcString| s@);
            if self.texts().contains(s@) {
                assert(m.contains(s@));
                let k = choose|k: int| 0 <= k < m.len() && #[trigger] m[k] == s@;
                assert(self.strings@[k]@ == s@);
            }
        }
        false
    }

    /// The shared string for `bytes`: one handed out before whose UTF-8
    /// bytes are `bytes`, or a new one holding their (lossy) decoding,
    /// which is kept unless an equal text is kept already.
    pub fn intern(&mut self, bytes: &[u8]) -> (s: ArcString)
        ensures
            s@ == interned_text(bytes@),
            final(self).texts() == old(self).texts().insert(s@),
    {
        match self.find_bytes(bytes) {
            Some(i) => {
                let s = self.strings[i].clone();
                proof {
                    encode_utf8_valid_utf8(s@);
                    encode_utf8_decode_utf8(s@);
                    assert(self.strings@.map_values(|s: ArcString| s@)[i as int] == s@);
                    assert(self.texts().insert(s@) =~= self.texts());
                }
                s
            },
            None => {
                let s = ArcString::new(from_utf8_lossy(bytes));
                if !self.find_text(&s) {
                    let ghost before = self.strings@;
                    self.strings.push(s.clone());
                    proof {
                        assert(self.strings@.map_values(|s: ArcString| s@) =~= before.map_values(
                            |s: ArcString| s@,
                        ).push(s@));
                        before.map_values(|s: ArcString| s@).lemma_push_to_set_commute(s@);
                        assert(self.texts() =~= before.map_values(|s: ArcString| s@).to_set().insert(s@));
                    }
                } else {
                    proof {
                        assert(self.texts().insert(s@) =~= self.texts());
                    }
                }
                s
            },
        }
    }
}

/// Whether two byte strings are equal.
fn bytes_eq(a: &[u8], b: &[u8]) -> (r: bool)
    ensures
        r == (a@ == b@),
{
    if a.len() != b.len() {
        return false;
    }
    let mut i: usize = 0;
    while i < a.len()
        invariant
            i <= a@.len() == b@.len(),
            forall|k: int| 0 <= k < i ==> a@[k] == b@[k],
        decreases a@.len() - i,
    {
        if a[i] != b[i] {
            return false;
        }
        i = i + 1;
    }
    assert(a@ =~= b@);
    true
}

/// Why a script could not be loaded; each carries the description of the
/// underlying failure.
#[derive(Debug)]
pub enum LoadError {
    Io(String),
    Parse(String),
    Compile(String),
}

impl LoadError {
    /// The message of the error.
    pub fn message(&self) -> (m: &'static str)
        ensures
            m@ == match self {
                LoadError::Io(_) => "io error"@,
                LoadError::Parse(_) => "parse error"@,
                LoadError::Compile(_) => "compile error"@,
            },
    {
        match self {
            LoadError::Io(_) => "io error",
            LoadError::Parse(_) => "parse error",
            LoadError::Compile(_) => "compile error",
        }
    }
}

/// A compiled Lua script: the interned path it was loaded from, the
/// compiled program, and when it was compiled.
#[derive(Debug)]
pub struct LuaProto<P> {
    pub path: ArcString,
    pub compiled: P,
    /// Milliseconds on the loader's clock at which compiling finished.
    pub compile_time: u64,
}

/// The file extensions that the Lua loader takes.
pub fn extensions() -> (e: Vec<&'static str>)
    ensures
        e@.len() == 1,
        e@[0]@ == "lua"@,
{
    let mut e = Vec::new();
    e.push("lua");
    e
}

/// Puts together the outcome of loading the script at `path`: the error of
/// the first stage that failed (reading, parsing, compiling), or the
/// compiled script. The path is interned first.
pub fn finish_load<P, Q>(
    interner: &mut ArcInterner,
    path: &[u8],
    read: Result<(), String>,
    parsed: Result<Q, String>,
    compiled: Result<P, String>,
    compile_time: u64,
) -> (r: Result<LuaProto<P>, LoadError>)
    ensures
        final(interner).texts() == old(interner).texts().insert(interned_text(path@)),
        match r {
            Ok(proto) => read is Ok && parsed is Ok && compiled is Ok && proto.path@ == interned_text(path@)
                && proto.compile_time == compile_time,
            Err(LoadError::Io(_)) => read is Err,
            Err(LoadError::Parse(_)) => read is Ok && parsed is Err,
            Err(LoadError::Compile(_)) => read is Ok && parsed is Ok && compiled is Err,
        },
{
    let p = interner.intern(path);
    match read {
        Err(e) => return Err(LoadError::Io(e)),
        Ok(()) => {},
    }
    match parsed {
        Err(e) => return Err(LoadError::Parse(e)),
        Ok(_) => {},
    }
    match compiled {
        Err(e) => Err(LoadError::Compile(e)),
        Ok(c) => Ok(LuaProto { path: p, compiled: c, compile_time }),
    }
}

} // verus!
