//! Help files: public ones for everyone, private ones for the players
//! given access to them.

use crate::names::NameMap;
use vstd::prelude::*;

verus! {

/// The help files of the game, by topic.
pub struct HelpFiles {
    pub public: NameMap<String>,
    pub private: NameMap<String>,
}

/// The reply to `help` on topic `key`: the private file when the player
/// may read it and it exists, else the public file, else a notice that
/// there is none.
pub open spec fn help_reply_spec(
    public: Map<Seq<char>, String>,
    private: Map<Seq<char>, String>,
    access: Map<Seq<char>, ()>,
    key: Seq<char>,
) -> Seq<char> {
    if access.contains_key(key) && private.contains_key(key) {
        private[key]@
    } else if public.contains_key(key) {
        public[key]@
    } else {
        "No help found for \""@ + key + "\"."@
    }
}

impl HelpFiles {
    /// No help files.
    pub fn new() -> (h: HelpFiles)
        ensures
            h.public.map() == Map::<Seq<char>, String>::empty(),
            h.private.map() == Map::<Seq<char>, String>::empty(),
    {
        HelpFiles { public: NameMap::new(), private: NameMap::new() }
    }

    /// The reply to `help` on topic `key` for a player with private access
    /// to the topics of `access`.
    pub fn reply(&self, access: &NameMap<()>, key: &String) -> (r: String)
        ensures
            r@ == help_reply_spec(self.public.map(), self.private.map(), access.map(), key@),
    {
        if access.get(key.as_str()).is_some() {
            match self.private.get(key.as_str()) {
                Some(content) => return content.clone(),
                None => {},
            }
        }
        match self.public.get(key.as_str()) {
            Some(content) => content.clone(),
            None => {
                let mut out = String::from_str("No help found for \"");
                out.append(key.as_str());
                out.append("\".");
                proof {
                    reveal_strlit("No help found for \"");
                    reveal_strlit("\".");
                }
                out
            },
        }
    }
}

/// The topic of a `help` command: the words after the first, joined with
/// spaces.
pub fn help_topic(words: &Vec<String>) -> (t: String)
    requires
        words@.len() >= 1,
    ensures
        t@ == crate::admin::joined(words@.subrange(1, words@.len() as int).map_values(|w: String| w@)),
{
    crate::admin::join_words(words.as_slice(), 1)
}

} // verus!
