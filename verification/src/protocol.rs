//! The two-verb line protocol: decoding a command line into a command value
//! and rendering the byte responses.
//!
//! A command line is the buffered bytes of one client message with the
//! two-byte terminator already stripped. Decoding is total: every line maps
//! to exactly one of `Set`, `Get`, `Malformed` or `Unknown`. The decoder
//! performs no I/O and never touches the store.

use vstd::prelude::*;

verus! {

/// The byte value of a space, the token delimiter.
pub const SPACE: u8 = 32;

/// The byte value of carriage return, first byte of the terminator.
pub const CR: u8 = 13;

/// The byte value of line feed, second byte of the terminator.
pub const LF: u8 = 10;

/// Why a line failed to decode.
#[derive(Clone, Copy, Debug, PartialEq, Eq)]
pub enum Reason {
    /// No key token was found where one was expected.
    MissingKey,
    /// A `set` line ended after its key, with no value token.
    MissingValue,
}

/// A decoded command, valid for the duration of one dispatch.
#[derive(Debug, PartialEq, Eq)]
pub enum Command {
    Put { key: Vec<u8>, value: Vec<u8> },
    Get { key: Vec<u8> },
    Malformed { reason: Reason },
    Unknown,
}

/// The mathematical form of a decoded command, over byte sequences.
pub enum CommandModel {
    Put { key: Seq<u8>, value: Seq<u8> },
    Get { key: Seq<u8> },
    Malformed { reason: Reason },
    Unknown,
}

impl View for Command {
    type V = CommandModel;

    open spec fn view(&self) -> CommandModel {
        match self {
            Command::Put { key, value } => CommandModel::Put { key: key@, value: value@ },
            Command::Get { key } => CommandModel::Get { key: key@ },
            Command::Malformed { reason } => CommandModel::Malformed { reason: *reason },
            Command::Unknown => CommandModel::Unknown,
        }
    }
}

/// The verb of a `set` line: the word and its following space.
pub open spec fn set_verb() -> Seq<u8> {
    seq![115, 101, 116, SPACE]
}

/// The verb of a `get` line: the word and its following space.
pub open spec fn get_verb() -> Seq<u8> {
    seq![103, 101, 116, SPACE]
}

/// The two-byte message terminator.
pub open spec fn terminator() -> Seq<u8> {
    seq![CR, LF]
}

/// The prompt sent after accept and after each response.
pub open spec fn prompt() -> Seq<u8> {
    seq![62, SPACE]
}

/// Index of the first space in `s`, or `s.len()` if there is none.
pub open spec fn first_space(s: Seq<u8>) -> int
    decreases s.len(),
{
    if s.len() == 0 {
        0
    } else if s[0] == SPACE {
        0
    } else {
        1 + first_space(s.skip(1))
    }
}

/// `first_space` is the least index holding a space, or the length.
pub proof fn lemma_first_space(s: Seq<u8>)
    ensures
        0 <= first_space(s) <= s.len(),
        forall|j: int| 0 <= j < first_space(s) ==> s[j] != SPACE,
        first_space(s) < s.len() ==> s[first_space(s)] == SPACE,
    decreases s.len(),
{
    if s.len() == 0 {
    } else if s[0] == SPACE {
    } else {
        lemma_first_space(s.skip(1));
        assert forall|j: int| 0 <= j < first_space(s) implies s[j] != SPACE by {
            if j >= 1 {
                assert(s.skip(1)[j - 1] == s[j]);
            }
        }
        if first_space(s) < s.len() {
            assert(s.skip(1)[first_space(s) - 1] == s[first_space(s)]);
        }
    }
}

/// What a command line means.
///
/// - `set <key> <value>`: the key is the first space-delimited token after
///   the verb and must be non-empty; the value is everything after the space
///   that ends the key, verbatim (it may contain spaces or be empty). A line
///   that ends at the key has a missing value; an empty key token is a
///   missing key.
/// - `get <key>`: the key is everything after the verb, verbatim, and must
///   be non-empty.
/// - Anything else, the empty line included, is unknown. Verbs are
///   case-sensitive.
pub open spec fn spec_decode(line: Seq<u8>) -> CommandModel {
    if line.len() >= 4 && line.subrange(0, 4) == set_verb() {
        let rest = line.skip(4);
        let i = first_space(rest);
        if i == 0 {
            CommandModel::Malformed { reason: Reason::MissingKey }
        } else if i == rest.len() {
            CommandModel::Malformed { reason: Reason::MissingValue }
        } else {
            CommandModel::Put { key: rest.subrange(0, i), value: rest.skip(i + 1) }
        }
    } else if line.len() >= 4 && line.subrange(0, 4) == get_verb() {
        let rest = line.skip(4);
        if rest.len() == 0 {
            CommandModel::Malformed { reason: Reason::MissingKey }
        } else {
            CommandModel::Get { key: rest }
        }
    } else {
        CommandModel::Unknown
    }
}

/// Copy of the bytes `line[from..to]`.
pub fn bytes_of_range(line: &[u8], from: usize, to: usize) -> (v: Vec<u8>)
    requires
        from <= to <= line@.len(),
    ensures
        v@ == line@.subrange(from as int, to as int),
{
    let mut v: Vec<u8> = Vec::new();
    v.extend_from_slice(&line[from..to]);
    proof {
        assert(v@ =~= line@.subrange(from as int, to as int));
    }
    v
}

/// Index of the first space in `line` at or after `from`, or `line.len()`.
fn find_space(line: &[u8], from: usize) -> (r: usize)
    requires
        from <= line@.len(),
    ensures
        from <= r <= line@.len(),
        r - from == first_space(line@.skip(from as int)),
{
    let mut i: usize = from;
    while i < line.len() && line[i] != SPACE
        invariant
            from <= i <= line@.len(),
            forall|j: int| from <= j < i ==> line@[j] != SPACE,
        decreases line@.len() - i,
    {
        i = i + 1;
    }
    proof {
        let rest = line@.skip(from as int);
        lemma_first_space(rest);
        let fs = first_space(rest);
        if fs < i - from {
            assert(rest[fs] == line@[from + fs]);
            assert(false);
        }
        if fs > i - from {
            assert(rest[i - from] == line@[i as int]);
            assert(false);
        }
    }
    i
}

/// Does `line` begin with the four verb bytes `v0 v1 v2` and a space?
fn has_verb(line: &[u8], v0: u8, v1: u8, v2: u8) -> (r: bool)
    ensures
        r == (line@.len() >= 4 && line@.subrange(0, 4) == seq![v0, v1, v2, SPACE]),
{
    if line.len() >= 4 {
        let r = line[0] == v0 && line[1] == v1 && line[2] == v2 && line[3] == SPACE;
        proof {
            if r {
                assert(line@.subrange(0, 4) =~= seq![v0, v1, v2, SPACE]);
            } else {
                if line@.subrange(0, 4) == seq![v0, v1, v2, SPACE] {
                    assert(line@[0] == line@.subrange(0, 4)[0]);
                    assert(line@[1] == line@.subrange(0, 4)[1]);
                    assert(line@[2] == line@.subrange(0, 4)[2]);
                    assert(line@[3] == line@.subrange(0, 4)[3]);
                }
            }
        }
        r
    } else {
        false
    }
}

/// Decode one command line (terminator already stripped).
pub fn decode(line: &[u8]) -> (c: Command)
    ensures
        c@ == spec_decode(line@),
{
    let n = line.len();
    if has_verb(line, 115, 101, 116) {
        let sp = find_space(line, 4);
        if sp == 4 {
            Command::Malformed { reason: Reason::MissingKey }
        } else if sp == n {
            Command::Malformed { reason: Reason::MissingValue }
        } else {
            let key = bytes_of_range(line, 4, sp);
            let value = bytes_of_range(line, sp + 1, n);
            proof {
                let rest = line@.skip(4);
                let i = first_space(rest);
                assert(key@ =~= rest.subrange(0, i));
                assert(value@ =~= rest.skip(i + 1));
            }
            Command::Put { key, value }
        }
    } else if has_verb(line, 103, 101, 116) {
        if n == 4 {
            Command::Malformed { reason: Reason::MissingKey }
        } else {
            let key = bytes_of_range(line, 4, n);
            proof {
                assert(key@ =~= line@.skip(4));
            }
            Command::Get { key }
        }
    } else {
        Command::Unknown
    }
}

/// The acknowledgement of a successful `set`: `OK\n`.
pub open spec fn resp_ok() -> Seq<u8> {
    seq![79u8, 75u8, LF]
}

/// The generic failure response: `ERR\n`.
pub open spec fn resp_err() -> Seq<u8> {
    seq![69u8, 82u8, 82u8, LF]
}

/// The miss response of a `get`: `ERR\n` followed by the terminator.
pub open spec fn resp_miss() -> Seq<u8> {
    resp_err() + terminator()
}

/// The missing-key error response: `ERR key\n`.
pub open spec fn resp_missing_key() -> Seq<u8> {
    seq![69u8, 82u8, 82u8, SPACE, 107u8, 101u8, 121u8, LF]
}

/// The missing-value error response: `ERR value\n`.
pub open spec fn resp_missing_value() -> Seq<u8> {
    seq![69u8, 82u8, 82u8, SPACE, 118u8, 97u8, 108u8, 117u8, 101u8, LF]
}

/// The store after a command is applied: only `set` changes it.
pub open spec fn store_after(kv: Map<Seq<u8>, Seq<u8>>, c: CommandModel) -> Map<Seq<u8>, Seq<u8>> {
    match c {
        CommandModel::Put { key, value } => kv.insert(key, value),
        _ => kv,
    }
}

/// The response a command earns against the store it was applied to.
pub open spec fn response_of(kv: Map<Seq<u8>, Seq<u8>>, c: CommandModel) -> Seq<u8> {
    match c {
        CommandModel::Put { .. } => resp_ok(),
        CommandModel::Get { key } => if kv.contains_key(key) {
            kv[key] + terminator()
        } else {
            resp_miss()
        },
        CommandModel::Malformed { reason } => match reason {
            Reason::MissingKey => resp_missing_key(),
            Reason::MissingValue => resp_missing_value(),
        },
        CommandModel::Unknown => resp_err(),
    }
}

/// Law: a `set` of `k` to `v` followed by a `get` of `k` against the store it
/// produced answers with `v` and the terminator, and the `get` leaves that
/// store as it was. The store is shared, so this holds whether the `get`
/// comes from the connection that issued the `set` or from any other.
pub proof fn lemma_set_then_get(kv: Map<Seq<u8>, Seq<u8>>, k: Seq<u8>, v: Seq<u8>)
    ensures
        ({
            let kv2 = store_after(kv, (CommandModel::Put { key: k, value: v }));
            &&& response_of(kv2, (CommandModel::Get { key: k })) == v + terminator()
            &&& store_after(kv2, (CommandModel::Get { key: k })) == kv2
        }),
{
}

/// Law: a `get` of a key never written answers the miss response, and the
/// store stays as it was.
pub proof fn lemma_get_miss(kv: Map<Seq<u8>, Seq<u8>>, k: Seq<u8>)
    requires
        !kv.contains_key(k),
    ensures
        response_of(kv, (CommandModel::Get { key: k })) == resp_miss(),
        store_after(kv, (CommandModel::Get { key: k })) == kv,
{
}

/// Law: `set` is idempotent — applying the same `set` twice leaves the store
/// exactly as applying it once does.
pub proof fn lemma_set_idempotent(kv: Map<Seq<u8>, Seq<u8>>, k: Seq<u8>, v: Seq<u8>)
    ensures
        ({
            let once = store_after(kv, (CommandModel::Put { key: k, value: v }));
            store_after(once, (CommandModel::Put { key: k, value: v })) == once
        }),
{
    assert(kv.insert(k, v).insert(k, v) =~= kv.insert(k, v));
}

/// Build the `OK\n` acknowledgement.
pub fn make_ok() -> (v: Vec<u8>)
    ensures
        v@ == resp_ok(),
{
    let mut v: Vec<u8> = Vec::new();
    v.push(79);
    v.push(75);
    v.push(LF);
    proof {
        assert(v@ =~= resp_ok());
    }
    v
}

/// Build the `ERR\n` failure response.
pub fn make_err() -> (v: Vec<u8>)
    ensures
        v@ == resp_err(),
{
    let mut v: Vec<u8> = Vec::new();
    v.push(69);
    v.push(82);
    v.push(82);
    v.push(LF);
    proof {
        assert(v@ =~= resp_err());
    }
    v
}

/// Build the miss response `ERR\n\r\n`.
pub fn make_miss() -> (v: Vec<u8>)
    ensures
        v@ == resp_miss(),
{
    let mut v = make_err();
    v.push(CR);
    v.push(LF);
    proof {
        assert(v@ =~= resp_miss());
    }
    v
}

/// Build the missing-key error response `ERR key\n`.
pub fn make_missing_key() -> (v: Vec<u8>)
    ensures
        v@ == resp_missing_key(),
{
    let mut v: Vec<u8> = Vec::new();
    v.push(69);
    v.push(82);
    v.push(82);
    v.push(SPACE);
    v.push(107);
    v.push(101);
    v.push(121);
    v.push(LF);
    proof {
        assert(v@ =~= resp_missing_key());
    }
    v
}

/// Build the missing-value error response `ERR value\n`.
pub fn make_missing_value() -> (v: Vec<u8>)
    ensures
        v@ == resp_missing_value(),
{
    let mut v: Vec<u8> = Vec::new();
    v.push(69);
    v.push(82);
    v.push(82);
    v.push(SPACE);
    v.push(118);
    v.push(97);
    v.push(108);
    v.push(117);
    v.push(101);
    v.push(LF);
    proof {
        assert(v@ =~= resp_missing_value());
    }
    v
}

/// Append the `> ` prompt to a response.
pub fn push_prompt(v: &mut Vec<u8>)
    ensures
        final(v)@ == old(v)@ + prompt(),
{
    v.push(62);
    v.push(SPACE);
    proof {
        assert(v@ =~= old(v)@ + prompt());
    }
}

} // verus!
