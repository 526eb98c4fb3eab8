//! Arguments of the administrator and debugging commands, and the text of
//! the `who` command.
//!
//! The argument string of a command is split into words (see
//! [`crate::command::argument_words`]); the parsers here read entity ids,
//! coordinates and names from those words, or report the usage line of the
//! command or the integer that did not parse.

use crate::command::{argument_words, argument_words_of, lemma_split_on_len, split_on};
use crate::text::{
    chars_of,
    parse_int,
    parse_failure_text,
    parse_int_spec,
    push_char,
    push_decimal,
    decimal_string,
    ParseIntFailure,
};
use vstd::prelude::*;
use vstd::string::*;

verus! {

/// The commands whose arguments this module reads.
#[derive(Clone, Copy, Debug, PartialEq, Eq, Structural)]
pub enum AdminCommand {
    Teleport,
    Move,
    Rotate,
    Parent,
    Insert,
    Remove,
    Despawn,
}

/// The usage line of each command.
pub open spec fn usage_text(c: AdminCommand) -> Seq<char> {
    match c {
        AdminCommand::Teleport => "Usage: @teleport <entity id> <q> <r> <s> [<map name>]"@,
        AdminCommand::Move => "Usage: @move <entity id> <q> <r> <s>"@,
        AdminCommand::Rotate => "Usage: @rotate <entity id> <r>"@,
        AdminCommand::Parent => "Usage: @parent <entity id> [<new parent id>]"@,
        AdminCommand::Insert => "Usage: @insert <entity id> <component name> <component data>"@,
        AdminCommand::Remove => "Usage: @remove <entity id> <component name>"@,
        AdminCommand::Despawn => "Usage: @despawn <entity id>"@,
    }
}

/// The message shown for each refusal of a command's arguments.
pub open spec fn arg_error_text(e: ArgError) -> Seq<char> {
    match e {
        ArgError::Usage(c) => usage_text(c),
        ArgError::Int(f) => parse_failure_text(f),
        ArgError::MissingEntity => "missing entity argument"@,
        ArgError::MissingFile => "missing file arg"@,
    }
}

impl AdminCommand {
    /// The usage line printed when the arguments are short.
    pub fn usage(&self) -> (u: &'static str)
        ensures
            u@ == usage_text(*self),
    {
        match self {
            AdminCommand::Teleport => "Usage: @teleport <entity id> <q> <r> <s> [<map name>]",
            AdminCommand::Move => "Usage: @move <entity id> <q> <r> <s>",
            AdminCommand::Rotate => "Usage: @rotate <entity id> <r>",
            AdminCommand::Parent => "Usage: @parent <entity id> [<new parent id>]",
            AdminCommand::Insert => "Usage: @insert <entity id> <component name> <component data>",
            AdminCommand::Remove => "Usage: @remove <entity id> <component name>",
            AdminCommand::Despawn => "Usage: @despawn <entity id>",
        }
    }
}

/// Why the arguments of a command were refused.
#[derive(Clone, Copy, Debug, PartialEq, Eq, Structural)]
pub enum ArgError {
    /// Too few words: the command's usage line is shown.
    Usage(AdminCommand),
    /// A number did not parse.
    Int(ParseIntFailure),
    /// The entity id of `@dump` is missing.
    MissingEntity,
    /// The file name of `@dump` is missing.
    MissingFile,
}

impl ArgError {
    /// The message shown to the player.
    pub fn message(&self) -> (m: &'static str)
        ensures
            m@ == arg_error_text(*self),
    {
        match self {
            ArgError::Usage(c) => c.usage(),
            ArgError::Int(e) => e.message(),
            ArgError::MissingEntity => "missing entity argument",
            ArgError::MissingFile => "missing file arg",
        }
    }
}

/// A request that an administrator command makes of the world.
#[derive(Debug)]
pub enum AdminRequest {
    /// Move `entity` to `(q, r)`, on map `map` when one is named.
    Teleport { entity: u64, q: i32, r: i32, map: Option<String> },
    /// Move `entity` by `(q, r)`.
    Move { entity: u64, q: i32, r: i32 },
    /// Turn `entity` by `rotation` sixths.
    Rotate { entity: u64, rotation: i8 },
    /// Attach `entity` to `parent`, or detach it.
    Parent { entity: u64, parent: Option<u64> },
    /// Insert component `component`, written as `data`, into `entity`.
    Insert { entity: u64, component: String, data: String },
    /// Remove component `component` from `entity`.
    Remove { entity: u64, component: String },
    /// Despawn `entity` with its descendants.
    Despawn { entity: u64 },
}

/// The value of an entity id word.
pub open spec fn entity_spec(w: Seq<char>) -> Result<int, ParseIntFailure> {
    parse_int_spec(w, false, 0, u64::MAX as int)
}

/// The value of a coordinate word.
pub open spec fn coord_spec(w: Seq<char>) -> Result<int, ParseIntFailure> {
    parse_int_spec(w, true, i32::MIN as int, i32::MAX as int)
}

/// The value of a rotation word.
pub open spec fn rotation_spec(w: Seq<char>) -> Result<int, ParseIntFailure> {
    parse_int_spec(w, true, i8::MIN as int, i8::MAX as int)
}

/// The words `ws[from..]` joined with single spaces.
pub open spec fn joined(ws: Seq<Seq<char>>) -> Seq<char>
    decreases ws.len(),
{
    if ws.len() == 0 {
        Seq::empty()
    } else if ws.len() == 1 {
        ws[0]
    } else {
        joined(ws.drop_last()) + seq![' '] + ws.last()
    }
}

/// The map named by the words after the coordinates of `@teleport`: none
/// when there are no such words, the empty name for `None`, the words
/// joined with spaces otherwise.
pub open spec fn teleport_map_spec(rest: Seq<Seq<char>>) -> Option<Seq<char>> {
    let name = joined(rest);
    if name.len() == 0 {
        None
    } else if name == seq!['N', 'o', 'n', 'e'] {
        Some(Seq::empty())
    } else {
        Some(name)
    }
}

/// The meaning of the words of an administrator command.
pub enum RequestSpec {
    Teleport { entity: int, q: int, r: int, map: Option<Seq<char>> },
    Move { entity: int, q: int, r: int },
    Rotate { entity: int, rotation: int },
    Parent { entity: int, parent: Option<int> },
    Insert { entity: int, component: Seq<char>, data: Seq<char> },
    Remove { entity: int, component: Seq<char> },
    Despawn { entity: int },
}

/// The request that `words` make of command `cmd`, or the first error, in
/// the order in which the command reads its words.
pub open spec fn request_spec(cmd: AdminCommand, ws: Seq<Seq<char>>) -> Result<RequestSpec, ArgError> {
    match cmd {
        AdminCommand::Teleport | AdminCommand::Move => if ws.len() < 4 {
            Err(ArgError::Usage(cmd))
        } else {
            match entity_spec(ws[0]) {
                Err(e) => Err(ArgError::Int(e)),
                Ok(id) => match coord_spec(ws[1]) {
                    Err(e) => Err(ArgError::Int(e)),
                    Ok(q) => match coord_spec(ws[2]) {
                        Err(e) => Err(ArgError::Int(e)),
                        Ok(r) => if cmd == AdminCommand::Move {
                            Ok(RequestSpec::Move { entity: id, q, r })
                        } else {
                            Ok(
                                RequestSpec::Teleport {
                                    entity: id,
                                    q,
                                    r,
                                    map: teleport_map_spec(ws.subrange(4, ws.len() as int)),
                                },
                            )
                        },
                    },
                },
            }
        },
        AdminCommand::Rotate => if ws.len() < 2 {
            Err(ArgError::Usage(cmd))
        } else {
            match entity_spec(ws[0]) {
                Err(e) => Err(ArgError::Int(e)),
                Ok(id) => match rotation_spec(ws[1]) {
                    Err(e) => Err(ArgError::Int(e)),
                    Ok(rot) => Ok(RequestSpec::Rotate { entity: id, rotation: rot }),
                },
            }
        },
        _ => if ws.len() < 1 {
            Err(ArgError::Usage(cmd))
        } else {
            match entity_spec(ws[0]) {
                Err(e) => Err(ArgError::Int(e)),
                Ok(id) => match cmd {
                    AdminCommand::Parent => if ws.len() < 2 {
                        Ok(RequestSpec::Parent { entity: id, parent: None })
                    } else {
                        match entity_spec(ws[1]) {
                            Err(e) => Err(ArgError::Int(e)),
                            Ok(p) => Ok(RequestSpec::Parent { entity: id, parent: Some(p) }),
                        }
                    },
                    AdminCommand::Insert => if ws.len() < 3 {
                        Err(ArgError::Usage(cmd))
                    } else {
                        Ok(RequestSpec::Insert { entity: id, component: ws[1], data: ws[2] })
                    },
                    AdminCommand::Remove => if ws.len() < 2 {
                        Err(ArgError::Usage(cmd))
                    } else {
                        Ok(RequestSpec::Remove { entity: id, component: ws[1] })
                    },
                    _ => Ok(RequestSpec::Despawn { entity: id }),
                },
            }
        },
    }
}

impl AdminRequest {
    /// The meaning of this request.
    pub open spec fn view_spec(&self) -> RequestSpec {
        match self {
            AdminRequest::Teleport { entity, q, r, map } => RequestSpec::Teleport {
                entity: *entity as int,
                q: *q as int,
                r: *r as int,
                map: match map {
                    Some(m) => Some(m@),
                    None => None,
                },
            },
            AdminRequest::Move { entity, q, r } => RequestSpec::Move {
                entity: *entity as int,
                q: *q as int,
                r: *r as int,
            },
            AdminRequest::Rotate { entity, rotation } => RequestSpec::Rotate {
                entity: *entity as int,
                rotation: *rotation as int,
            },
            AdminRequest::Parent { entity, parent } => RequestSpec::Parent {
                entity: *entity as int,
                parent: match parent {
                    Some(p) => Some(*p as int),
                    None => None,
                },
            },
            AdminRequest::Insert { entity, component, data } => RequestSpec::Insert {
                entity: *entity as int,
                component: component@,
                data: data@,
            },
            AdminRequest::Remove { entity, component } => RequestSpec::Remove {
                entity: *entity as int,
                component: component@,
            },
            AdminRequest::Despawn { entity } => RequestSpec::Despawn { entity: *entity as int },
        }
    }
}

fn parse_entity(w: &String) -> (r: Result<u64, ArgError>)
    ensures
        match r {
            Ok(v) => entity_spec(w@) == Ok::<int, ParseIntFailure>(v as int),
            Err(e) => exists|f: ParseIntFailure|
                e == ArgError::Int(f) && entity_spec(w@) == Err::<int, ParseIntFailure>(f),
        },
{
    match parse_int(w.as_str(), false, 0, 18446744073709551615i128) {
        Ok(v) => Ok(v as u64),
        Err(f) => Err(ArgError::Int(f)),
    }
}

fn parse_coord(w: &String) -> (r: Result<i32, ArgError>)
    ensures
        match r {
            Ok(v) => coord_spec(w@) == Ok::<int, ParseIntFailure>(v as int),
            Err(e) => exists|f: ParseIntFailure|
                e == ArgError::Int(f) && coord_spec(w@) == Err::<int, ParseIntFailure>(f),
        },
{
    match parse_int(w.as_str(), true, -2147483648i128, 2147483647i128) {
        Ok(v) => Ok(v as i32),
        Err(f) => Err(ArgError::Int(f)),
    }
}

fn parse_rotation(w: &String) -> (r: Result<i8, ArgError>)
    ensures
        match r {
            Ok(v) => rotation_spec(w@) == Ok::<int, ParseIntFailure>(v as int),
            Err(e) => exists|f: ParseIntFailure|
                e == ArgError::Int(f) && rotation_spec(w@) == Err::<int, ParseIntFailure>(f),
        },
{
    match parse_int(w.as_str(), true, -128i128, 127i128) {
        Ok(v) => Ok(v as i8),
        Err(f) => Err(ArgError::Int(f)),
    }
}

/// `ws` joined with single spaces.
pub fn join_words(ws: &[String], from: usize) -> (s: String)
    requires
        from <= ws@.len(),
    ensures
        s@ == joined(ws@.subrange(from as int, ws@.len() as int).map_values(|w: String| w@)),
{
    let mut s = String::new();
    let mut i = from;
    while i < ws.len()
        invariant
            from <= i <= ws@.len(),
            s@ == joined(ws@.subrange(from as int, i as int).map_values(|w: String| w@)),
        decreases ws@.len() - i,
    {
        let ghost before = ws@.subrange(from as int, i as int).map_values(|w: String| w@);
        if i > from {
            push_char(&mut s, ' ');
        }
        s.append(ws[i].as_str());
        proof {
            let after = ws@.subrange(from as int, i + 1).map_values(|w: String| w@);
            assert(after.drop_last() =~= before);
            assert(after.last() == ws@[i as int]@);
            if i == from {
                assert(before.len() == 0);
                assert(s@ =~= after[0]);
            }
        }
        i = i + 1;
    }
    s
}

/// Reads the arguments of `cmd` from its argument string.
pub fn parse_admin_args(cmd: AdminCommand, args: &str) -> (r: Result<AdminRequest, ArgError>)
    ensures
        match r {
            Ok(req) => request_spec(cmd, argument_words(args@)) == Ok::<RequestSpec, ArgError>(
                req.view_spec(),
            ),
            Err(e) => request_spec(cmd, argument_words(args@)) == Err::<RequestSpec, ArgError>(e),
        },
{
    let ws = argument_words_of(args);
    let ghost wv = ws@.map_values(|w: String| w@);
    assert(wv == argument_words(args@));
    match cmd {
        AdminCommand::Teleport | AdminCommand::Move => {
            if ws.len() < 4 {
                return Err(ArgError::Usage(cmd));
            }
            assert(wv[0] == ws@[0]@ && wv[1] == ws@[1]@ && wv[2] == ws@[2]@);
            let entity = match parse_entity(&ws[0]) {
                Ok(v) => v,
                Err(e) => return Err(e),
            };
            let q = match parse_coord(&ws[1]) {
                Ok(v) => v,
                Err(e) => return Err(e),
            };
            let r = match parse_coord(&ws[2]) {
                Ok(v) => v,
                Err(e) => return Err(e),
            };
            if let AdminCommand::Move = cmd {
                return Ok(AdminRequest::Move { entity, q, r });
            }
            let name = join_words(ws.as_slice(), 4);
            proof {
                assert(ws@.subrange(4, ws@.len() as int).map_values(|w: String| w@) =~= wv.subrange(
                    4,
                    wv.len() as int,
                ));
            }
            let map = if name.as_str().is_empty() {
                None
            } else if is_none_word(&name) {
                Some(String::new())
            } else {
                Some(name)
            };
            Ok(AdminRequest::Teleport { entity, q, r, map })
        },
        AdminCommand::Rotate => {
            if ws.len() < 2 {
                return Err(ArgError::Usage(cmd));
            }
            assert(wv[0] == ws@[0]@ && wv[1] == ws@[1]@);
            let entity = match parse_entity(&ws[0]) {
                Ok(v) => v,
                Err(e) => return Err(e),
            };
            let rotation = match parse_rotation(&ws[1]) {
                Ok(v) => v,
                Err(e) => return Err(e),
            };
            Ok(AdminRequest::Rotate { entity, rotation })
        },
        _ => {
            if ws.len() < 1 {
                return Err(ArgError::Usage(cmd));
            }
            assert(wv[0] == ws@[0]@);
            let entity = match parse_entity(&ws[0]) {
                Ok(v) => v,
                Err(e) => return Err(e),
            };
            match cmd {
                AdminCommand::Parent => {
                    if ws.len() < 2 {
                        Ok(AdminRequest::Parent { entity, parent: None })
                    } else {
                        assert(wv[1] == ws@[1]@);
                        match parse_entity(&ws[1]) {
                            Ok(p) => Ok(AdminRequest::Parent { entity, parent: Some(p) }),
                            Err(e) => Err(e),
                        }
                    }
                },
                AdminCommand::Insert => {
                    if ws.len() < 3 {
                        Err(ArgError::Usage(cmd))
                    } else {
                        assert(wv[1] == ws@[1]@ && wv[2] == ws@[2]@);
                        Ok(
                            AdminRequest::Insert {
                                entity,
                                component: ws[1].clone(),
                                data: ws[2].clone(),
                            },
                        )
                    }
                },
                AdminCommand::Remove => {
                    if ws.len() < 2 {
                        Err(ArgError::Usage(cmd))
                    } else {
                        assert(wv[1] == ws@[1]@);
                        Ok(AdminRequest::Remove { entity, component: ws[1].clone() })
                    }
                },
                _ => Ok(AdminRequest::Despawn { entity }),
            }
        },
    }
}

/// Whether `s` spells `None`.
fn is_none_word(s: &String) -> (b: bool)
    ensures
        b == (s@ == seq!['N', 'o', 'n', 'e']),
{
    let v = chars_of(s.as_str());
    let b = v.len() == 4 && v[0] == 'N' && v[1] == 'o' && v[2] == 'n' && v[3] == 'e';
    proof {
        if b {
            assert(v@ =~= seq!['N', 'o', 'n', 'e']);
        }
    }
    b
}

/// The entity ids among the words of `@entities`; words that are not ids
/// are skipped.
pub open spec fn entity_ids_spec(ws: Seq<Seq<char>>) -> Seq<u64>
    decreases ws.len(),
{
    if ws.len() == 0 {
        Seq::empty()
    } else {
        let r = entity_ids_spec(ws.drop_last());
        match entity_spec(ws.last()) {
            Ok(v) => r.push(v as u64),
            Err(_) => r,
        }
    }
}

/// The entity ids named by the arguments of `@entities`.
pub fn entity_ids(args: &str) -> (ids: Vec<u64>)
    ensures
        ids@ == entity_ids_spec(argument_words(args@)),
{
    let ws = argument_words_of(args);
    let ghost wv = ws@.map_values(|w: String| w@);
    let mut ids: Vec<u64> = Vec::new();
    let mut i: usize = 0;
    while i < ws.len()
        invariant
            i <= ws@.len(),
            wv == ws@.map_values(|w: String| w@),
            ids@ == entity_ids_spec(wv.take(i as int)),
        decreases ws@.len() - i,
    {
        proof {
            assert(wv.take(i + 1).drop_last() =~= wv.take(i as int));
            assert(wv.take(i + 1).last() == ws@[i as int]@);
        }
        match parse_entity(&ws[i]) {
            Ok(v) => ids.push(v),
            Err(_) => {},
        }
        i = i + 1;
    }
    proof {
        assert(wv.take(ws@.len() as int) =~= wv);
    }
    ids
}

/// The entity and file name of `@dump`, read from the pieces of its
/// argument string split at every space (without dropping empty pieces).
pub open spec fn dump_args_spec(args: Seq<char>) -> Result<(int, Seq<char>), ArgError> {
    let ps = split_on(args, ' ');
    match entity_spec(ps[0]) {
        Err(e) => Err(ArgError::Int(e)),
        Ok(id) => if ps.len() < 2 {
            Err(ArgError::MissingFile)
        } else {
            Ok((id, ps[1]))
        },
    }
}

/// Reads the entity and file name of `@dump`.
pub fn dump_args(args: &str) -> (r: Result<(u64, String), ArgError>)
    ensures
        match r {
            Ok((id, f)) => dump_args_spec(args@) == Ok::<(int, Seq<char>), ArgError>((id as int, f@)),
            Err(e) => dump_args_spec(args@) == Err::<(int, Seq<char>), ArgError>(e),
        },
{
    let pieces = split_pieces(args);
    let entity = match parse_entity(&pieces[0]) {
        Ok(v) => v,
        Err(e) => return Err(e),
    };
    if pieces.len() < 2 {
        return Err(ArgError::MissingFile);
    }
    let file = pieces[1].clone();
    Ok((entity, file))
}

/// The pieces of `s` between spaces.
fn split_pieces(s: &str) -> (ps: Vec<String>)
    ensures
        ps@.len() >= 1,
        ps@.map_values(|p: String| p@) == split_on(s@, ' '),
{
    let v = chars_of(s);
    let n = v.len();
    let mut ps: Vec<String> = Vec::new();
    let mut start: usize = 0;
    let mut i: usize = 0;
    proof {
        lemma_split_on_len(v@.subrange(0, n as int), ' ');
        assert(v@.subrange(0, n as int) =~= v@);
    }
    while i < n
        invariant
            start <= i <= n == v@.len(),
            v@ == s@,
            split_on(v@, ' ') == ps@.map_values(|p: String| p@) + seq![
                v@.subrange(start as int, i as int) + split_on(v@.subrange(i as int, n as int), ' ')[0],
            ] + split_on(v@.subrange(i as int, n as int), ' ').drop_first(),
        decreases n - i,
    {
        let ghost rest = v@.subrange(i as int, n as int);
        let ghost rest1 = v@.subrange(i + 1, n as int);
        let ghost before = ps@.map_values(|p: String| p@);
        proof {
            assert(rest.drop_first() =~= rest1);
            lemma_split_on_len(rest1, ' ');
        }
        if v[i] == ' ' {
            let p = crate::text::string_of(v.as_slice(), start, i);
            ps.push(p);
            proof {
                let pv = v@.subrange(start as int, i as int);
                assert(split_on(rest, ' ') == seq![Seq::<char>::empty()] + split_on(rest1, ' '));
                assert(ps@.map_values(|p: String| p@) =~= before.push(pv));
                assert(pv + Seq::<char>::empty() =~= pv);
                assert(v@.subrange(i + 1, i + 1) =~= Seq::<char>::empty());
                assert(Seq::<char>::empty() + split_on(rest1, ' ')[0] =~= split_on(rest1, ' ')[0]);
                assert(split_on(v@, ' ') =~= ps@.map_values(|p: String| p@) + seq![
                    v@.subrange(i + 1, i + 1) + split_on(rest1, ' ')[0],
                ] + split_on(rest1, ' ').drop_first());
            }
            start = i + 1;
        } else {
            proof {
                let r1 = split_on(rest1, ' ');
                assert(split_on(rest, ' ') == r1.update(0, seq![v@[i as int]] + r1[0]));
                assert(v@.subrange(start as int, i + 1) =~= v@.subrange(start as int, i as int).push(
                    v@[i as int],
                ));
                assert(v@.subrange(start as int, i as int) + (seq![v@[i as int]] + r1[0])
                    =~= v@.subrange(start as int, i + 1) + r1[0]);
                assert(r1.update(0, seq![v@[i as int]] + r1[0]).drop_first() =~= r1.drop_first());
            }
        }
        i = i + 1;
    }
    let last = crate::text::string_of(v.as_slice(), start, n);
    let ghost before = ps@.map_values(|p: String| p@);
    ps.push(last);
    proof {
        let p = v@.subrange(start as int, n as int);
        assert(v@.subrange(n as int, n as int) =~= Seq::<char>::empty());
        assert(split_on(Seq::<char>::empty(), ' ') == seq![Seq::<char>::empty()]);
        assert(p + Seq::<char>::empty() =~= p);
        assert(ps@.map_values(|p: String| p@) =~= before.push(p));
        assert(split_on(v@, ' ') =~= before.push(p));
    }
    ps
}

/// The reply to `who`, given the names of the players online.
pub open spec fn who_text(names: Seq<Seq<char>>) -> Seq<char> {
    if names.len() > 1 {
        "There are "@ + decimal_string(names.len()) + " players online:"@ + who_lines(names)
    } else {
        "It's just you!"@
    }
}

/// Each name on a line of its own, indented by four spaces.
pub open spec fn who_lines(names: Seq<Seq<char>>) -> Seq<char>
    decreases names.len(),
{
    if names.len() == 0 {
        Seq::empty()
    } else {
        who_lines(names.drop_last()) + "\n    "@ + names.last()
    }
}

/// The reply to `who`.
pub fn who_message(names: &Vec<String>) -> (s: String)
    ensures
        s@ == who_text(names@.map_values(|n: String| n@)),
{
    let ghost nv = names@.map_values(|n: String| n@);
    if names.len() > 1 {
        let mut out = String::from_str("There are ");
        push_decimal(&mut out, names.len() as u64);
        out.append(" players online:");
        let ghost head = out@;
        let mut i: usize = 0;
        while i < names.len()
            invariant
                i <= names@.len(),
                nv == names@.map_values(|n: String| n@),
                out@ == head + who_lines(nv.take(i as int)),
            decreases names@.len() - i,
        {
            out.append("\n    ");
            out.append(names[i].as_str());
            proof {
                assert(nv.take(i + 1).drop_last() =~= nv.take(i as int));
                assert(nv.take(i + 1).last() == names@[i as int]@);
                assert(out@ =~= head + who_lines(nv.take(i + 1)));
            }
            i = i + 1;
        }
        proof {
            assert(nv.take(names@.len() as int) =~= nv);
            reveal_strlit("There are ");
            reveal_strlit(" players online:");
            assert(out@ =~= who_text(nv));
        }
        out
    } else {
        String::from_str("It's just you!")
    }
}

/// `@move` reads its words as `@teleport` does: the entity id first, then
/// `q` from the second word and `r` from the third. When those three words
/// hold numbers, the request moves that entity by exactly `(q, r)`, and a
/// teleport with the same words goes to that same `(q, r)`.
pub proof fn lemma_move_reads_q_then_r(ws: Seq<Seq<char>>)
    requires
        ws.len() >= 4,
        entity_spec(ws[0]) is Ok,
        coord_spec(ws[1]) is Ok,
        coord_spec(ws[2]) is Ok,
    ensures
        request_spec(AdminCommand::Move, ws) matches Ok(RequestSpec::Move { entity, q, r })
            && Ok::<int, ParseIntFailure>(entity) == entity_spec(ws[0])
            && Ok::<int, ParseIntFailure>(q) == coord_spec(ws[1])
            && Ok::<int, ParseIntFailure>(r) == coord_spec(ws[2]),
        request_spec(AdminCommand::Teleport, ws) matches Ok(RequestSpec::Teleport { entity: te, q: tq, r: tr, .. })
            && request_spec(AdminCommand::Move, ws) == Ok::<RequestSpec, ArgError>(
            RequestSpec::Move { entity: te, q: tq, r: tr },
        ),
{
}

/// The entity the request acts on.
pub open spec fn request_entity(r: RequestSpec) -> int {
    match r {
        RequestSpec::Teleport { entity, .. } => entity,
        RequestSpec::Move { entity, .. } => entity,
        RequestSpec::Rotate { entity, .. } => entity,
        RequestSpec::Parent { entity, .. } => entity,
        RequestSpec::Insert { entity, .. } => entity,
        RequestSpec::Remove { entity, .. } => entity,
        RequestSpec::Despawn { entity } => entity,
    }
}

/// Every administrator command acts on the entity its first word names:
/// a request that the words make is about `entity_spec(ws[0])`, and a
/// first word that is not an id is the error reported, once the command
/// has words enough. `@rotate` turns by its second word.
pub proof fn lemma_first_word_names_the_entity(cmd: AdminCommand, ws: Seq<Seq<char>>)
    ensures
        request_spec(cmd, ws) matches Ok(r) ==> ws.len() >= 1 && Ok::<int, ParseIntFailure>(request_entity(r))
            == entity_spec(ws[0]),
        ws.len() >= 4 ==> (entity_spec(ws[0]) matches Err(e) ==> request_spec(cmd, ws) == Err::<RequestSpec, ArgError>(
            ArgError::Int(e),
        )),
        request_spec(AdminCommand::Rotate, ws) matches Ok(RequestSpec::Rotate { rotation, .. }) ==> ws.len() >= 2
            && Ok::<int, ParseIntFailure>(rotation) == rotation_spec(ws[1]),
{
}

} // verus!
