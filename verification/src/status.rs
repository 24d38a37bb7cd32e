//! The server status advertised in the multiplayer list: version, MOTD and
//! player counts, together with its JSON wire form.  Strings are carried as
//! UTF-8 bytes.

use vstd::prelude::*;
use crate::json::{
    expect, int_rep, is_digit, lemma_assoc, lemma_lit_first_bytes, lemma_parse_of_escaped,
    lemma_parse_of_int_rep, lemma_take_skip,
    lit_description_key,
    lit_description_key_vec, lit_online_key, lit_online_key_vec, lit_players_key,
    lit_players_key_vec, lit_protocol_key, lit_protocol_key_vec, lit_sample_end,
    lit_sample_end_vec, lit_version_open, lit_version_open_vec, parse_int, parse_string,
    push_escaped, push_int, spec_escape, spec_parse_int, spec_parse_string, starts_with,
    valid_text, eq_bytes, skip_value, skip_ws, spec_skip_value_at, ws_run,
    lit_key_version, lit_key_version_vec, lit_key_name, lit_key_name_vec,
    lit_key_protocol, lit_key_protocol_vec, lit_key_description, lit_key_description_vec,
    lit_key_text, lit_key_text_vec, lit_key_players, lit_key_players_vec,
    lit_key_max, lit_key_max_vec, lit_key_online, lit_key_online_vec,
};
use crate::util::push_all;

verus! {

/// Version block of a status: display name and protocol number.
#[derive(Debug, PartialEq, Eq)]
pub struct ServerVersion {
    /// Display name, e.g. `1.16.5`, as UTF-8 bytes.
    pub name: Vec<u8>,
    /// Protocol number, e.g. 754.
    pub protocol: i32,
}

/// Player counts of a status.  The sample list is always empty here.
#[derive(Debug, PartialEq, Eq, Clone, Copy)]
pub struct OnlinePlayers {
    pub online: i32,
    pub max: i32,
}

/// A server list status: version, description (MOTD) and player counts.
#[derive(Debug, PartialEq, Eq)]
pub struct ServerStatus {
    pub version: ServerVersion,
    /// MOTD text, as UTF-8 bytes.
    pub description: Vec<u8>,
    pub players: OnlinePlayers,
}

/// The mathematical content of a status.
#[verifier::ext_equal]
pub struct StatusView {
    pub name: Seq<u8>,
    pub protocol: int,
    pub description: Seq<u8>,
    pub online: int,
    pub max: int,
}

impl View for ServerStatus {
    type V = StatusView;

    open spec fn view(&self) -> StatusView {
        StatusView {
            name: self.version.name@,
            protocol: self.version.protocol as int,
            description: self.description@,
            online: self.players.online as int,
            max: self.players.max as int,
        }
    }
}

impl ServerStatus {
    /// A fresh value with the same content.
    pub fn duplicate(&self) -> (r: Self)
        ensures
            r@ == self@,
    {
        let name = crate::util::copy_range(self.version.name.as_slice(), 0, self.version.name.len());
        let description = crate::util::copy_range(self.description.as_slice(), 0, self.description.len());
        proof {
            assert(self.version.name@.subrange(0, self.version.name@.len() as int)
                =~= self.version.name@);
            assert(self.description@.subrange(0, self.description@.len() as int)
                =~= self.description@);
        }
        ServerStatus {
            version: ServerVersion { name, protocol: self.version.protocol },
            description,
            players: OnlinePlayers { online: self.players.online, max: self.players.max },
        }
    }
}


/// The JSON text of a status, as served in the status response.
pub open spec fn status_json(v: StatusView) -> Seq<u8> {
    lit_version_open() + spec_escape(v.name) + seq![34u8]
        + lit_protocol_key() + int_rep(v.protocol)
        + lit_description_key() + spec_escape(v.description) + seq![34u8]
        + lit_players_key() + int_rep(v.max)
        + lit_online_key() + int_rep(v.online)
        + lit_sample_end()
}

/// A status that can go on the wire: its texts hold no control bytes and its
/// numbers are 32-bit.
pub open spec fn valid_status(v: StatusView) -> bool {
    &&& valid_text(v.name)
    &&& valid_text(v.description)
    &&& -0x8000_0000 <= v.protocol <= 0x7fff_ffff
    &&& -0x8000_0000 <= v.online <= 0x7fff_ffff
    &&& -0x8000_0000 <= v.max <= 0x7fff_ffff
}

/// Tail of status decoding once everything through the online count is
/// parsed: the sample-and-close text must be all that remains.
pub open spec fn decode_end(
    s: Seq<u8>,
    name: Seq<u8>,
    protocol: int,
    description: Seq<u8>,
    maxv: int,
    onlv: int,
) -> Option<StatusView> {
    if s == lit_sample_end() {
        Some(StatusView { name, protocol, description, online: onlv, max: maxv })
    } else {
        None
    }
}

/// Tail of status decoding from the online key on.
pub open spec fn decode_from_online(
    s: Seq<u8>,
    name: Seq<u8>,
    protocol: int,
    description: Seq<u8>,
    maxv: int,
) -> Option<StatusView> {
    if !starts_with(s, lit_online_key()) {
        None
    } else {
        match spec_parse_int(s.skip(lit_online_key().len() as int)) {
            Some((c, onlv)) => decode_end(
                s.skip(lit_online_key().len() as int).skip(c),
                name,
                protocol,
                description,
                maxv,
                onlv,
            ),
            None => None,
        }
    }
}

/// Tail of status decoding from the players key on.
pub open spec fn decode_from_max(
    s: Seq<u8>,
    name: Seq<u8>,
    protocol: int,
    description: Seq<u8>,
) -> Option<StatusView> {
    if !starts_with(s, lit_players_key()) {
        None
    } else {
        match spec_parse_int(s.skip(lit_players_key().len() as int)) {
            Some((c, maxv)) => decode_from_online(
                s.skip(lit_players_key().len() as int).skip(c),
                name,
                protocol,
                description,
                maxv,
            ),
            None => None,
        }
    }
}

/// Tail of status decoding from the description key on.
pub open spec fn decode_from_description(
    s: Seq<u8>,
    name: Seq<u8>,
    protocol: int,
) -> Option<StatusView> {
    if !starts_with(s, lit_description_key()) {
        None
    } else {
        match spec_parse_string(s.skip(lit_description_key().len() as int)) {
            Some((c, description)) => decode_from_max(
                s.skip(lit_description_key().len() as int).skip(c),
                name,
                protocol,
                description,
            ),
            None => None,
        }
    }
}

/// Tail of status decoding from the protocol key on.
pub open spec fn decode_from_protocol(s: Seq<u8>, name: Seq<u8>) -> Option<StatusView> {
    if !starts_with(s, lit_protocol_key()) {
        None
    } else {
        match spec_parse_int(s.skip(lit_protocol_key().len() as int)) {
            Some((c, protocol)) => decode_from_description(
                s.skip(lit_protocol_key().len() as int).skip(c),
                name,
                protocol,
            ),
            None => None,
        }
    }
}

/// What matching the exact emitted template yields: the grammar of
/// [`status_json`], with free string contents and numbers.
pub open spec fn spec_decode_template(s: Seq<u8>) -> Option<StatusView> {
    if !starts_with(s, lit_version_open()) {
        None
    } else {
        match spec_parse_string(s.skip(lit_version_open().len() as int)) {
            Some((c, name)) => decode_from_protocol(
                s.skip(lit_version_open().len() as int).skip(c),
                name,
            ),
            None => None,
        }
    }
}


/// Which object of a status reply a member scan is inside.
#[derive(Debug, Clone, Copy, PartialEq, Eq, Structural)]
pub enum ObjKind {
    /// The status object itself.
    Top,
    /// The `version` object.
    Version,
    /// The `players` object.
    Players,
    /// The `description` object.
    Description,
}

/// The fields gathered while scanning a status reply.
pub struct StatusAcc {
    pub name: Option<Seq<u8>>,
    pub protocol: Option<int>,
    pub text: Option<Seq<u8>>,
    pub online: Option<int>,
    pub max: Option<int>,
}

/// No field seen yet.
pub open spec fn empty_acc() -> StatusAcc {
    StatusAcc { name: None, protocol: None, text: None, online: None, max: None }
}

/// Exec twin of [`StatusAcc`].
pub struct FieldAcc {
    pub name: Option<Vec<u8>>,
    pub protocol: Option<i32>,
    pub text: Option<Vec<u8>>,
    pub online: Option<i32>,
    pub max: Option<i32>,
}

/// The fields an exec accumulator has gathered.
pub open spec fn acc_view(a: FieldAcc) -> StatusAcc {
    StatusAcc {
        name: match a.name {
            Some(v) => Some(v@),
            None => None,
        },
        protocol: match a.protocol {
            Some(v) => Some(v as int),
            None => None,
        },
        text: match a.text {
            Some(v) => Some(v@),
            None => None,
        },
        online: match a.online {
            Some(v) => Some(v as int),
            None => None,
        },
        max: match a.max {
            Some(v) => Some(v as int),
            None => None,
        },
    }
}

/// One member's value, parsed at position `q`: a known key of the current
/// object fills its accumulator slot (a duplicate member overwrites), an
/// unknown key's value is skipped whole.  Returns the end position and the
/// updated accumulator.
pub open spec fn parse_member_value(
    s: Seq<u8>,
    q: int,
    kind: ObjKind,
    key: Seq<u8>,
    acc: StatusAcc,
    fuel: int,
) -> Option<(int, StatusAcc)>
    decreases fuel, 0int,
{
    if fuel <= 0 {
        None
    } else if !(0 <= q < s.len()) {
        None
    } else if kind == ObjKind::Top && key == lit_key_version() {
        if s[q] == 123 {
            parse_members(s, q + 1, ObjKind::Version, acc, fuel - 1)
        } else {
            None
        }
    } else if kind == ObjKind::Top && key == lit_key_players() {
        if s[q] == 123 {
            parse_members(s, q + 1, ObjKind::Players, acc, fuel - 1)
        } else {
            None
        }
    } else if kind == ObjKind::Top && key == lit_key_description() {
        if s[q] == 123 {
            parse_members(s, q + 1, ObjKind::Description, acc, fuel - 1)
        } else if s[q] == 34 {
            match spec_parse_string(s.skip(q + 1)) {
                Some((c, text)) => Some((q + 1 + c, StatusAcc { text: Some(text), ..acc })),
                None => None,
            }
        } else {
            None
        }
    } else if kind == ObjKind::Version && key == lit_key_name() {
        if s[q] == 34 {
            match spec_parse_string(s.skip(q + 1)) {
                Some((c, name)) => Some((q + 1 + c, StatusAcc { name: Some(name), ..acc })),
                None => None,
            }
        } else {
            None
        }
    } else if kind == ObjKind::Version && key == lit_key_protocol() {
        match spec_parse_int(s.skip(q)) {
            Some((c, v)) => Some((q + c, StatusAcc { protocol: Some(v), ..acc })),
            None => None,
        }
    } else if kind == ObjKind::Players && key == lit_key_max() {
        match spec_parse_int(s.skip(q)) {
            Some((c, v)) => Some((q + c, StatusAcc { max: Some(v), ..acc })),
            None => None,
        }
    } else if kind == ObjKind::Players && key == lit_key_online() {
        match spec_parse_int(s.skip(q)) {
            Some((c, v)) => Some((q + c, StatusAcc { online: Some(v), ..acc })),
            None => None,
        }
    } else if kind == ObjKind::Description && key == lit_key_text() {
        if s[q] == 34 {
            match spec_parse_string(s.skip(q + 1)) {
                Some((c, text)) => Some((q + 1 + c, StatusAcc { text: Some(text), ..acc })),
                None => None,
            }
        } else {
            None
        }
    } else {
        match spec_skip_value_at(s, q) {
            Some(e) => Some((e, acc)),
            None => None,
        }
    }
}

/// Scan the members of an object from position `i` (just past its opening
/// brace or a separating comma), whitespace tolerated everywhere, up to and
/// past its closing brace.  `fuel` only bounds the recursion; the callers
/// hand in more than any input can use up.
pub open spec fn parse_members(
    s: Seq<u8>,
    i: int,
    kind: ObjKind,
    acc: StatusAcc,
    fuel: int,
) -> Option<(int, StatusAcc)>
    decreases fuel, 1int,
{
    if fuel <= 0 {
        None
    } else {
        let j = i + ws_run(s, i);
        if !(0 <= j < s.len()) {
            None
        } else if s[j] == 125 {
            Some((j + 1, acc))
        } else if s[j] != 34 {
            None
        } else {
            match spec_parse_string(s.skip(j + 1)) {
                Some((ck, key)) => {
                    let p = j + 1 + ck + ws_run(s, j + 1 + ck);
                    if !(p < s.len() && s[p] == 58) {
                        None
                    } else {
                        let q = p + 1 + ws_run(s, p + 1);
                        match parse_member_value(s, q, kind, key, acc, fuel) {
                            Some((e, acc2)) => {
                                let e2 = e + ws_run(s, e);
                                if e2 < s.len() && s[e2] == 44 {
                                    parse_members(s, e2 + 1, kind, acc2, fuel - 1)
                                } else if e2 < s.len() && s[e2] == 125 {
                                    Some((e2 + 1, acc2))
                                } else {
                                    None
                                }
                            },
                            None => None,
                        }
                    }
                },
                None => None,
            }
        }
    }
}

/// What the general status parser yields: one object whose `version`,
/// `players` and `description` members may come in any order among members
/// it does not know (which are skipped whole, arrays included), whitespace
/// tolerated, the description given as a string or as an object with a
/// `text` member.  All five fields must be found.
pub open spec fn spec_decode_relaxed(s: Seq<u8>) -> Option<StatusView> {
    let i = ws_run(s, 0);
    if !(i < s.len() && s[i] == 123) {
        None
    } else {
        match parse_members(s, i + 1, ObjKind::Top, empty_acc(), s.len() as int + 1) {
            Some((e, acc)) => {
                if e + ws_run(s, e) == s.len() {
                    match (acc.name, acc.protocol, acc.text, acc.online, acc.max) {
                        (Some(n), Some(p), Some(tx), Some(o), Some(m)) => Some(StatusView {
                            name: n,
                            protocol: p,
                            description: tx,
                            online: o,
                            max: m,
                        }),
                        _ => None,
                    }
                } else {
                    None
                }
            },
            None => None,
        }
    }
}

/// What decoding a status JSON text yields: a text in the exact shape the
/// encoder emits is matched against that template; any other text goes
/// through the general member-by-member parser.
pub open spec fn spec_decode_status(s: Seq<u8>) -> Option<StatusView> {
    match spec_decode_template(s) {
        Some(v) => Some(v),
        None => spec_decode_relaxed(s),
    }
}

/// Emit the JSON text of `st`.
pub fn encode_status(st: &ServerStatus) -> (r: Vec<u8>)
    ensures
        r@ == status_json(st@),
{
    let mut out = lit_version_open_vec();
    push_escaped(&mut out, st.version.name.as_slice());
    out.push(34);
    let lit = lit_protocol_key_vec();
    push_all(&mut out, lit.as_slice());
    push_int(&mut out, st.version.protocol);
    let lit = lit_description_key_vec();
    push_all(&mut out, lit.as_slice());
    push_escaped(&mut out, st.description.as_slice());
    out.push(34);
    let lit = lit_players_key_vec();
    push_all(&mut out, lit.as_slice());
    push_int(&mut out, st.players.max);
    let lit = lit_online_key_vec();
    push_all(&mut out, lit.as_slice());
    push_int(&mut out, st.players.online);
    let lit = lit_sample_end_vec();
    push_all(&mut out, lit.as_slice());
    proof {
        assert(out@ =~= status_json(st@));
    }
    out
}

/// Match the exact emitted template (see [`spec_decode_template`]).
#[verifier::rlimit(100)]
fn decode_template(raw: &[u8]) -> (r: Option<ServerStatus>)
    ensures
        match r {
            Some(st) => spec_decode_template(raw@) == Some(st@),
            None => spec_decode_template(raw@) is None,
        },
{
    proof {
        assert(raw@.skip(0) =~= raw@);
    }
    let lit = lit_version_open_vec();
    let p1 = match expect(raw, 0, lit.as_slice()) {
        Some(p) => p,
        None => {
            return None;
        },
    };
    let (p2, name) = match parse_string(raw, p1) {
        Some(ok) => ok,
        None => {
            return None;
        },
    };
    proof {
        assert(raw@.skip(p1 as int).skip((p2 - p1) as int) =~= raw@.skip(p2 as int));
        assert(spec_decode_template(raw@) == decode_from_protocol(raw@.skip(p2 as int), name@));
    }
    let lit = lit_protocol_key_vec();
    let p3 = match expect(raw, p2, lit.as_slice()) {
        Some(p) => p,
        None => {
            return None;
        },
    };
    let (p4, protocol) = match parse_int(raw, p3) {
        Some(ok) => ok,
        None => {
            proof {
                assert(raw@.skip(p2 as int).skip(lit_protocol_key().len() as int)
                    =~= raw@.skip(p3 as int));
            }
            return None;
        },
    };
    proof {
        assert(raw@.skip(p2 as int).skip(lit_protocol_key().len() as int)
            =~= raw@.skip(p3 as int));
        assert(raw@.skip(p3 as int).skip((p4 - p3) as int) =~= raw@.skip(p4 as int));
        assert(spec_decode_template(raw@)
            == decode_from_description(raw@.skip(p4 as int), name@, protocol as int));
    }
    let lit = lit_description_key_vec();
    let p5 = match expect(raw, p4, lit.as_slice()) {
        Some(p) => p,
        None => {
            return None;
        },
    };
    let (p6, description) = match parse_string(raw, p5) {
        Some(ok) => ok,
        None => {
            proof {
                assert(raw@.skip(p4 as int).skip(lit_description_key().len() as int)
                    =~= raw@.skip(p5 as int));
            }
            return None;
        },
    };
    proof {
        assert(raw@.skip(p4 as int).skip(lit_description_key().len() as int)
            =~= raw@.skip(p5 as int));
        assert(raw@.skip(p5 as int).skip((p6 - p5) as int) =~= raw@.skip(p6 as int));
        assert(spec_decode_template(raw@)
            == decode_from_max(raw@.skip(p6 as int), name@, protocol as int, description@));
    }
    let lit = lit_players_key_vec();
    let p7 = match expect(raw, p6, lit.as_slice()) {
        Some(p) => p,
        None => {
            return None;
        },
    };
    let (p8, maxv) = match parse_int(raw, p7) {
        Some(ok) => ok,
        None => {
            proof {
                assert(raw@.skip(p6 as int).skip(lit_players_key().len() as int)
                    =~= raw@.skip(p7 as int));
            }
            return None;
        },
    };
    proof {
        assert(raw@.skip(p6 as int).skip(lit_players_key().len() as int)
            =~= raw@.skip(p7 as int));
        assert(raw@.skip(p7 as int).skip((p8 - p7) as int) =~= raw@.skip(p8 as int));
        assert(spec_decode_template(raw@) == decode_from_online(
            raw@.skip(p8 as int),
            name@,
            protocol as int,
            description@,
            maxv as int,
        ));
    }
    let lit = lit_online_key_vec();
    let p9 = match expect(raw, p8, lit.as_slice()) {
        Some(p) => p,
        None => {
            return None;
        },
    };
    let (p10, onlv) = match parse_int(raw, p9) {
        Some(ok) => ok,
        None => {
            proof {
                assert(raw@.skip(p8 as int).skip(lit_online_key().len() as int)
                    =~= raw@.skip(p9 as int));
            }
            return None;
        },
    };
    proof {
        assert(raw@.skip(p8 as int).skip(lit_online_key().len() as int)
            =~= raw@.skip(p9 as int));
        assert(raw@.skip(p9 as int).skip((p10 - p9) as int) =~= raw@.skip(p10 as int));
        assert(spec_decode_template(raw@) == decode_end(
            raw@.skip(p10 as int),
            name@,
            protocol as int,
            description@,
            maxv as int,
            onlv as int,
        ));
    }
    let lit = lit_sample_end_vec();
    let p11 = match expect(raw, p10, lit.as_slice()) {
        Some(p) => p,
        None => {
            proof {
                if raw@.skip(p10 as int) == lit_sample_end() {
                    assert(raw@.skip(p10 as int).subrange(0, lit_sample_end().len() as int)
                        =~= lit_sample_end());
                }
            }
            return None;
        },
    };
    if p11 != raw.len() {
        proof {
            assert(raw@.skip(p10 as int).len() > lit_sample_end().len());
        }
        return None;
    }
    proof {
        assert(raw@.skip(p10 as int)
            =~= raw@.skip(p10 as int).subrange(0, lit_sample_end().len() as int));
    }
    Some(ServerStatus {
        version: ServerVersion { name, protocol },
        description,
        players: OnlinePlayers { online: onlv, max: maxv },
    })
}


/// Scan one object's members (see [`parse_members`]).  `fuel` mirrors the
/// specification's recursion budget; the entry point hands in more than any
/// input can use up.
#[verifier::loop_isolation(false)]
#[verifier::rlimit(100)]
fn parse_object(
    s: &[u8],
    from: usize,
    kind: ObjKind,
    acc: FieldAcc,
    Ghost(fuel): Ghost<int>,
) -> (r: Option<(usize, FieldAcc)>)
    requires
        from <= s@.len(),
        fuel >= s@.len() - from + 1,
    ensures
        match r {
            Some((end, a2)) => {
                &&& from < end <= s@.len()
                &&& parse_members(s@, from as int, kind, acc_view(acc), fuel)
                    == Some((end as int, acc_view(a2)))
            },
            None => parse_members(s@, from as int, kind, acc_view(acc), fuel) is None,
        },
    decreases s@.len() - from,
{
    let ghost acc0 = acc_view(acc);
    let mut acc = acc;
    let mut i: usize = from;
    let ghost mut cur_fuel: int = fuel;
    loop
        invariant
            from <= i <= s@.len(),
            cur_fuel >= s@.len() - i + 1,
            match parse_members(s@, i as int, kind, acc_view(acc), cur_fuel) {
                Some((end, a2)) => parse_members(s@, from as int, kind, acc0, fuel)
                    == Some((end, a2)),
                None => parse_members(s@, from as int, kind, acc0, fuel) is None,
            },
        decreases s@.len() - i,
    {
        let j = skip_ws(s, i);
        if j >= s.len() {
            return None;
        }
        let b = s[j];
        if b == 125 {
            return Some((j + 1, acc));
        }
        if b != 34 {
            return None;
        }
        let (kend, key) = match parse_string(s, j + 1) {
            Some(x) => x,
            None => {
                return None;
            },
        };
        let p = skip_ws(s, kend);
        if p >= s.len() {
            return None;
        }
        if s[p] != 58 {
            return None;
        }
        let q = skip_ws(s, p + 1);
        let ghost acc_before = acc_view(acc);
        if q >= s.len() {
            return None;
        }
        let e: usize;
        if kind == ObjKind::Top && eq_bytes(key.as_slice(), lit_key_version_vec().as_slice()) {
            if s[q] != 123 {
                return None;
            }
            match parse_object(s, q + 1, ObjKind::Version, acc, Ghost(cur_fuel - 1)) {
                Some((e2, a2)) => {
                    e = e2;
                    acc = a2;
                },
                None => {
                    return None;
                },
            }
        } else if kind == ObjKind::Top && eq_bytes(key.as_slice(), lit_key_players_vec().as_slice()) {
            if s[q] != 123 {
                return None;
            }
            match parse_object(s, q + 1, ObjKind::Players, acc, Ghost(cur_fuel - 1)) {
                Some((e2, a2)) => {
                    e = e2;
                    acc = a2;
                },
                None => {
                    return None;
                },
            }
        } else if kind == ObjKind::Top
            && eq_bytes(key.as_slice(), lit_key_description_vec().as_slice()) {
            if s[q] == 123 {
                match parse_object(s, q + 1, ObjKind::Description, acc, Ghost(cur_fuel - 1)) {
                    Some((e2, a2)) => {
                        e = e2;
                        acc = a2;
                    },
                    None => {
                        return None;
                    },
                }
            } else if s[q] == 34 {
                match parse_string(s, q + 1) {
                    Some((e2, text)) => {
                        e = e2;
                        acc.text = Some(text);
                    },
                    None => {
                        return None;
                    },
                }
            } else {
                return None;
            }
        } else if kind == ObjKind::Version && eq_bytes(key.as_slice(), lit_key_name_vec().as_slice()) {
            if s[q] != 34 {
                return None;
            }
            match parse_string(s, q + 1) {
                Some((e2, name)) => {
                    e = e2;
                    acc.name = Some(name);
                },
                None => {
                    return None;
                },
            }
        } else if kind == ObjKind::Version
            && eq_bytes(key.as_slice(), lit_key_protocol_vec().as_slice()) {
            match parse_int(s, q) {
                Some((e2, v)) => {
                    e = e2;
                    acc.protocol = Some(v);
                },
                None => {
                    return None;
                },
            }
        } else if kind == ObjKind::Players && eq_bytes(key.as_slice(), lit_key_max_vec().as_slice()) {
            match parse_int(s, q) {
                Some((e2, v)) => {
                    e = e2;
                    acc.max = Some(v);
                },
                None => {
                    return None;
                },
            }
        } else if kind == ObjKind::Players
            && eq_bytes(key.as_slice(), lit_key_online_vec().as_slice()) {
            match parse_int(s, q) {
                Some((e2, v)) => {
                    e = e2;
                    acc.online = Some(v);
                },
                None => {
                    return None;
                },
            }
        } else if kind == ObjKind::Description
            && eq_bytes(key.as_slice(), lit_key_text_vec().as_slice()) {
            if s[q] != 34 {
                return None;
            }
            match parse_string(s, q + 1) {
                Some((e2, text)) => {
                    e = e2;
                    acc.text = Some(text);
                },
                None => {
                    return None;
                },
            }
        } else {
            match skip_value(s, q) {
                Some(e2) => {
                    e = e2;
                },
                None => {
                    return None;
                },
            }
        }
        proof {
            assert(parse_member_value(s@, q as int, kind, key@, acc_before, cur_fuel)
                == Some((e as int, acc_view(acc))));
        }
        let e2 = skip_ws(s, e);
        if e2 < s.len() && s[e2] == 44 {
            proof {
                cur_fuel = cur_fuel - 1;
            }
            i = e2 + 1;
        } else if e2 < s.len() && s[e2] == 125 {
            return Some((e2 + 1, acc));
        } else {
            return None;
        }
    }
}

/// Decode a status reply through the general parser (see
/// [`spec_decode_relaxed`]).
fn decode_relaxed(raw: &[u8]) -> (r: Option<ServerStatus>)
    ensures
        match r {
            Some(st) => spec_decode_relaxed(raw@) == Some(st@),
            None => spec_decode_relaxed(raw@) is None,
        },
{
    let start = skip_ws(raw, 0);
    if start >= raw.len() {
        return None;
    }
    if raw[start] != 123 {
        return None;
    }
    let acc = FieldAcc { name: None, protocol: None, text: None, online: None, max: None };
    let (end, acc) = match parse_object(
        raw,
        start + 1,
        ObjKind::Top,
        acc,
        Ghost(raw@.len() as int + 1),
    ) {
        Some(x) => x,
        None => {
            return None;
        },
    };
    if skip_ws(raw, end) != raw.len() {
        return None;
    }
    match (acc.name, acc.protocol, acc.text, acc.online, acc.max) {
        (Some(name), Some(protocol), Some(text), Some(online), Some(max)) => Some(ServerStatus {
            version: ServerVersion { name, protocol },
            description: text,
            players: OnlinePlayers { online, max },
        }),
        _ => None,
    }
}

/// Decode a status JSON text (see [`spec_decode_status`]): the exact emitted
/// template is matched directly, and any other text goes through the general
/// member-by-member parser.
pub fn decode_status(raw: &[u8]) -> (r: Option<ServerStatus>)
    ensures
        match r {
            Some(st) => spec_decode_status(raw@) == Some(st@),
            None => spec_decode_status(raw@) is None,
        },
{
    match decode_template(raw) {
        Some(st) => Some(st),
        None => decode_relaxed(raw),
    }
}

/// The emitted template matches back to the status it was built from.
#[verifier::rlimit(100)]
pub proof fn lemma_template_round_trip(v: StatusView)
    requires
        valid_status(v),
    ensures
        spec_decode_template(status_json(v)) == Some(v),
{
    let s = status_json(v);
    let a = lit_version_open();
    let e1 = spec_escape(v.name);
    let q = seq![34u8];
    let b = lit_protocol_key();
    let i1 = int_rep(v.protocol);
    let c = lit_description_key();
    let e2 = spec_escape(v.description);
    let d = lit_players_key();
    let i2 = int_rep(v.max);
    let e = lit_online_key();
    let i3 = int_rep(v.online);
    let f = lit_sample_end();
    lemma_lit_first_bytes();
    let p8 = i3 + f;
    let p7 = e + p8;
    let p6 = i2 + p7;
    let p5 = d + p6;
    let p4 = (e2 + q) + p5;
    let p3 = c + p4;
    let p2 = i1 + p3;
    let p1 = b + p2;
    let rest_a = (e1 + q) + p1;
    // fold the flat template into nested tails, one seam at a time
    lemma_assoc(a + e1 + q + b + i1 + c + e2 + q + d + i2 + e, i3, f);
    lemma_assoc(a + e1 + q + b + i1 + c + e2 + q + d + i2, e, p8);
    lemma_assoc(a + e1 + q + b + i1 + c + e2 + q + d, i2, p7);
    lemma_assoc(a + e1 + q + b + i1 + c + e2 + q, d, p6);
    lemma_assoc(a + e1 + q + b + i1 + c + e2, q, p5);
    lemma_assoc(a + e1 + q + b + i1 + c, e2, q + p5);
    lemma_assoc(e2, q, p5);
    assert(s == (a + e1 + q + b + i1 + c) + p4);
    lemma_assoc(a + e1 + q + b + i1, c, p4);
    lemma_assoc(a + e1 + q + b, i1, p3);
    lemma_assoc(a + e1 + q, b, p2);
    lemma_assoc(a, e1, q);
    lemma_assoc(a, e1 + q, p1);
    assert(s == a + rest_a);
    // now walk the parse down the tails
    lemma_take_skip(a, rest_a);
    lemma_parse_of_escaped(v.name, p1);
    lemma_take_skip(e1 + q, p1);
    assert(spec_decode_template(s) == decode_from_protocol(p1, v.name));
    lemma_take_skip(b, p2);
    assert(p3[0] == 125 && !is_digit(125u8));
    lemma_parse_of_int_rep(v.protocol, p3);
    lemma_take_skip(i1, p3);
    assert(decode_from_protocol(p1, v.name) == decode_from_description(p3, v.name, v.protocol));
    lemma_take_skip(c, p4);
    lemma_parse_of_escaped(v.description, p5);
    lemma_take_skip(e2 + q, p5);
    assert(decode_from_description(p3, v.name, v.protocol)
        == decode_from_max(p5, v.name, v.protocol, v.description));
    lemma_take_skip(d, p6);
    assert(p7[0] == 44 && !is_digit(44u8));
    lemma_parse_of_int_rep(v.max, p7);
    lemma_take_skip(i2, p7);
    assert(decode_from_max(p5, v.name, v.protocol, v.description)
        == decode_from_online(p7, v.name, v.protocol, v.description, v.max));
    lemma_take_skip(e, p8);
    assert(f[0] == 44);
    lemma_parse_of_int_rep(v.online, f);
    lemma_take_skip(i3, f);
    assert(decode_from_online(p7, v.name, v.protocol, v.description, v.max)
        == decode_end(f, v.name, v.protocol, v.description, v.max, v.online));
    assert((StatusView {
        name: v.name,
        protocol: v.protocol,
        description: v.description,
        online: v.online,
        max: v.max,
    }) =~= v);
}


/// Law: decoding an encoded status yields the status back, for every status
/// whose texts are control-free and whose numbers are 32-bit.
pub proof fn lemma_status_round_trip(v: StatusView)
    requires
        valid_status(v),
    ensures
        spec_decode_status(status_json(v)) == Some(v),
{
    lemma_template_round_trip(v);
}

} // verus!
