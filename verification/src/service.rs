//! The service bus: the pieces of the connection and command lifecycle
//! every service shares. A frame is UTF-8 text ended by one NUL byte; the
//! first frame of a connection is a bare connection id, acknowledged with
//! an empty object; each later frame is tokenized shell-style and
//! dispatched on its verb. A handler answers with one JSON document, with
//! nothing, or with an error wrapped in an `error_msg` envelope.

use vstd::prelude::*;
use crate::b64::{payload_of, utf8_lossy, utf8_lossy_of};
use crate::error::{Error, message_of};
use crate::json::{Json, JsonV, jview, jviews, jviews_obj, lemma_jviews, lemma_jviews_obj};
use crate::strutil::{lemma_deep_view_strings, str_eq};

verus! {

// ---------------------------------------------------------------------------
// Framing.
// ---------------------------------------------------------------------------

/// The first index at or after `i` holding a NUL byte.
pub open spec fn nul_at(bs: Seq<u8>, i: int) -> Option<int>
    decreases bs.len() - i,
{
    if i < 0 || i >= bs.len() {
        None
    } else if bs[i] == 0u8 {
        Some(i)
    } else {
        nul_at(bs, i + 1)
    }
}

/// The bytes of one frame: everything before the first NUL.
pub open spec fn frame_payload_of(bs: Seq<u8>) -> Seq<u8> {
    match nul_at(bs, 0) {
        Some(i) => bs.take(i),
        None => bs,
    }
}

/// The text of one frame: its payload read as UTF-8, lossily.
pub fn frame_text(buf: &Vec<u8>) -> (r: String)
    ensures
        r@ == utf8_lossy_of(frame_payload_of(buf@)),
{
    let mut payload: Vec<u8> = Vec::new();
    let mut i: usize = 0;
    while i < buf.len()
        invariant
            i <= buf@.len(),
            payload@ =~= buf@.take(i as int),
            nul_at(buf@, 0) == nul_at(buf@, i as int),
            forall|j: int| 0 <= j < i ==> buf@[j] != 0u8,
        decreases buf@.len() - i,
    {
        if buf[i] == 0u8 {
            proof {
                assert(frame_payload_of(buf@) =~= buf@.take(i as int));
            }
            return utf8_lossy(&payload);
        }
        payload.push(buf[i]);
        i = i + 1;
    }
    proof {
        assert(frame_payload_of(buf@) =~= buf@);
        assert(payload@ =~= buf@);
    }
    utf8_lossy(&payload)
}

// ---------------------------------------------------------------------------
// Response building.
// ---------------------------------------------------------------------------

/// The empty JSON object: the handshake acknowledgement and the plain
/// success reply.
pub fn empty_object() -> (r: Json)
    ensures
        jview(r) == JsonV::Obj(Seq::<(Seq<char>, JsonV)>::empty()),
{
    let v: Vec<(String, Json)> = Vec::new();
    proof {
        assert(jviews_obj(v@) =~= Seq::<(Seq<char>, JsonV)>::empty());
    }
    Json::Obj(v)
}

/// The shape of an error reply.
pub open spec fn error_envelope_of(msg: Seq<char>) -> JsonV {
    JsonV::Obj(seq![("error_msg"@, JsonV::Str(msg))])
}

/// Wraps an error's message as the error reply.
pub fn error_envelope(e: &Error) -> (r: Json)
    ensures
        jview(r) == error_envelope_of(message_of(*e)),
{
    let mut fields: Vec<(String, Json)> = Vec::new();
    fields.push(("error_msg".to_owned(), Json::Str(e.message())));
    proof {
        lemma_jviews_obj(fields@);
        assert(jviews_obj(fields@) =~= seq![("error_msg"@, JsonV::Str(message_of(*e)))]);
    }
    Json::Obj(fields)
}

/// The shape of an array of strings.
pub open spec fn str_arr_of(names: Seq<Seq<char>>) -> JsonV {
    JsonV::Arr(Seq::new(names.len(), |i: int| JsonV::Str(names[i])))
}

/// An array of strings.
pub fn str_array(names: Vec<String>) -> (r: Json)
    ensures
        jview(r) == str_arr_of(names.deep_view()),
{
    proof {
        lemma_deep_view_strings(&names);
    }
    let mut items: Vec<Json> = Vec::new();
    let mut i: usize = 0;
    while i < names.len()
        invariant
            i <= names@.len(),
            items@.len() == i,
            forall|j: int| 0 <= j < names@.len() ==> names.deep_view()[j] == names@[j]@,
            names.deep_view().len() == names@.len(),
            forall|j: int| 0 <= j < i ==> jview(items@[j]) == JsonV::Str(names@[j]@),
        decreases names@.len() - i,
    {
        items.push(Json::Str(names[i].clone()));
        i = i + 1;
    }
    proof {
        lemma_jviews(items@);
        assert(jviews(items@) =~= Seq::new(names.deep_view().len(), |i: int| JsonV::Str(
            names.deep_view()[i],
        )));
    }
    Json::Arr(items)
}

/// The shape of a `names` reply.
pub open spec fn names_json_of(names: Seq<Seq<char>>) -> JsonV {
    JsonV::Obj(seq![("names"@, str_arr_of(names))])
}

/// Wraps a name list as a `names` reply.
pub fn names_json(names: Vec<String>) -> (r: Json)
    ensures
        jview(r) == names_json_of(names.deep_view()),
{
    let arr = str_array(names);
    let mut fields: Vec<(String, Json)> = Vec::new();
    fields.push(("names".to_owned(), arr));
    proof {
        lemma_jviews_obj(fields@);
        assert(jviews_obj(fields@) =~= seq![("names"@, jview(fields@[0].1))]);
    }
    Json::Obj(fields)
}

// ---------------------------------------------------------------------------
// Token helpers.
// ---------------------------------------------------------------------------

/// The first `n` tokens joined with single spaces.
pub open spec fn join_tokens_n(toks: Seq<Seq<char>>, n: int) -> Seq<char>
    decreases n,
{
    if n <= 0 {
        Seq::<char>::empty()
    } else if n == 1 {
        toks[0]
    } else {
        join_tokens_n(toks, n - 1).push(' ') + toks[n - 1]
    }
}

/// The tokens joined with single spaces, for error reporting.
pub fn join_tokens(toks: &Vec<String>) -> (r: String)
    ensures
        r@ == join_tokens_n(toks.deep_view(), toks.deep_view().len() as int),
{
    proof {
        lemma_deep_view_strings(toks);
    }
    let mut out = String::new();
    let mut i: usize = 0;
    while i < toks.len()
        invariant
            i <= toks@.len(),
            toks.deep_view().len() == toks@.len(),
            forall|j: int| 0 <= j < toks@.len() ==> toks.deep_view()[j] == toks@[j]@,
            out@ == join_tokens_n(toks.deep_view(), i as int),
        decreases toks@.len() - i,
    {
        if i == 0 {
            out = toks[0].clone();
        } else {
            let ghost pre = out@;
            out.append(" ");
            out.append(toks[i].as_str());
            proof {
                reveal_strlit(" ");
                assert(out@ =~= pre.push(' ') + toks@[i as int]@);
            }
        }
        i = i + 1;
    }
    out
}

// ---------------------------------------------------------------------------
// Number parsing and validation.
// ---------------------------------------------------------------------------

/// The value of one decimal digit character.
pub open spec fn digit_val(c: char) -> Option<nat> {
    if c == '0' {
        Some(0nat)
    } else if c == '1' {
        Some(1nat)
    } else if c == '2' {
        Some(2nat)
    } else if c == '3' {
        Some(3nat)
    } else if c == '4' {
        Some(4nat)
    } else if c == '5' {
        Some(5nat)
    } else if c == '6' {
        Some(6nat)
    } else if c == '7' {
        Some(7nat)
    } else if c == '8' {
        Some(8nat)
    } else if c == '9' {
        Some(9nat)
    } else {
        None
    }
}

/// The value of the first `k` characters read as decimal, unless a
/// non-digit appears or the value leaves `u64` range.
pub open spec fn parse_dec_n(s: Seq<char>, k: int) -> Option<nat>
    decreases k,
{
    if k <= 0 {
        Some(0nat)
    } else {
        match parse_dec_n(s, k - 1) {
            None => None,
            Some(v) => match digit_val(s[k - 1]) {
                None => None,
                Some(d) => if v * 10 + d <= u64::MAX {
                    Some((v * 10 + d) as nat)
                } else {
                    None
                },
            },
        }
    }
}

/// The `u64` a token denotes, if it is all digits and in range.
pub open spec fn parse_u64_of(s: Seq<char>) -> Option<nat> {
    if s.len() == 0 {
        None
    } else {
        parse_dec_n(s, s.len() as int)
    }
}

/// A failed decimal parse stays failed as more characters are read.
proof fn lemma_parse_dec_none(s: Seq<char>, k: int, m: int)
    requires
        0 <= k <= m,
        parse_dec_n(s, k) is None,
    ensures
        parse_dec_n(s, m) is None,
    decreases m - k,
{
    if m > k {
        lemma_parse_dec_none(s, k, m - 1);
    }
}

/// Parses a decimal token.
pub fn parse_u64(s: &String) -> (r: Option<u64>)
    ensures
        match parse_u64_of(s@) {
            Some(v) => r is Some && r->Some_0 == v,
            None => r is None,
        },
{
    let st = s.as_str();
    let n = st.unicode_len();
    if n == 0 {
        return None;
    }
    let mut v: u64 = 0;
    let mut i: usize = 0;
    while i < n
        invariant
            n == st@.len(),
            st@ == s@,
            i <= n,
            parse_dec_n(s@, i as int) == Some(v as nat),
        decreases n - i,
    {
        let c = st.get_char(i);
        let d: u64 = if c == '0' {
            0
        } else if c == '1' {
            1
        } else if c == '2' {
            2
        } else if c == '3' {
            3
        } else if c == '4' {
            4
        } else if c == '5' {
            5
        } else if c == '6' {
            6
        } else if c == '7' {
            7
        } else if c == '8' {
            8
        } else if c == '9' {
            9
        } else {
            proof {
                assert(digit_val(s@[i as int]) is None);
                assert(parse_dec_n(s@, i + 1) is None);
                lemma_parse_dec_none(s@, i + 1, n as int);
            }
            return None;
        };
        let wide: u128 = (v as u128) * 10 + (d as u128);
        if wide > u64::MAX as u128 {
            proof {
                assert(digit_val(s@[i as int]) == Some(d as nat));
                assert((v as nat) * 10 + (d as nat) > u64::MAX);
                assert(parse_dec_n(s@, i + 1) is None);
                lemma_parse_dec_none(s@, i + 1, n as int);
            }
            return None;
        }
        v = wide as u64;
        i = i + 1;
    }
    Some(v)
}

/// The states of the number-syntax scan.
pub enum NumState {
    /// Before anything; a minus sign or a digit may come.
    Sign,
    /// Before the first digit of the integer part.
    IntStart,
    /// Inside the integer part.
    Int,
    /// Right after the decimal point.
    FracStart,
    /// Inside the fraction part.
    Frac,
    /// Right after the exponent marker; a sign or a digit may come.
    ExpSign,
    /// Before the first digit of the exponent.
    ExpStart,
    /// Inside the exponent.
    Exp,
    /// A character no number holds appeared.
    Bad,
}

/// One step of the number-syntax scan.
pub open spec fn num_step(st: NumState, c: char) -> NumState {
    match st {
        NumState::Sign => {
            if c == '-' {
                NumState::IntStart
            } else if digit_val(c) is Some {
                NumState::Int
            } else {
                NumState::Bad
            }
        },
        NumState::IntStart => {
            if digit_val(c) is Some {
                NumState::Int
            } else {
                NumState::Bad
            }
        },
        NumState::Int => {
            if digit_val(c) is Some {
                NumState::Int
            } else if c == '.' {
                NumState::FracStart
            } else if c == 'e' || c == 'E' {
                NumState::ExpSign
            } else {
                NumState::Bad
            }
        },
        NumState::FracStart => {
            if digit_val(c) is Some {
                NumState::Frac
            } else {
                NumState::Bad
            }
        },
        NumState::Frac => {
            if digit_val(c) is Some {
                NumState::Frac
            } else if c == 'e' || c == 'E' {
                NumState::ExpSign
            } else {
                NumState::Bad
            }
        },
        NumState::ExpSign => {
            if c == '-' || c == '+' {
                NumState::ExpStart
            } else if digit_val(c) is Some {
                NumState::Exp
            } else {
                NumState::Bad
            }
        },
        NumState::ExpStart => {
            if digit_val(c) is Some {
                NumState::Exp
            } else {
                NumState::Bad
            }
        },
        NumState::Exp => {
            if digit_val(c) is Some {
                NumState::Exp
            } else {
                NumState::Bad
            }
        },
        NumState::Bad => NumState::Bad,
    }
}

/// The scan state after the first `k` characters.
pub open spec fn num_fold(s: Seq<char>, k: int) -> NumState
    decreases k,
{
    if k <= 0 {
        NumState::Sign
    } else {
        num_step(num_fold(s, k - 1), s[k - 1])
    }
}

/// Whether a token has decimal-number syntax, as a JSON number has it:
/// an optional minus sign, digits, an optional fraction, an optional
/// signed exponent.
pub open spec fn is_number_text(s: Seq<char>) -> bool {
    match num_fold(s, s.len() as int) {
        NumState::Int => true,
        NumState::Frac => true,
        NumState::Exp => true,
        _ => false,
    }
}

/// Checks a token for decimal-number syntax.
pub fn check_number_text(s: &String) -> (r: bool)
    ensures
        r == is_number_text(s@),
{
    let st = s.as_str();
    let n = st.unicode_len();
    let mut state = NumState::Sign;
    let mut i: usize = 0;
    while i < n
        invariant
            n == st@.len(),
            st@ == s@,
            i <= n,
            state == num_fold(s@, i as int),
        decreases n - i,
    {
        let c = st.get_char(i);
        let is_digit = c == '0' || c == '1' || c == '2' || c == '3' || c == '4' || c == '5' || c
            == '6' || c == '7' || c == '8' || c == '9';
        state = match state {
            NumState::Sign => {
                if c == '-' {
                    NumState::IntStart
                } else if is_digit {
                    NumState::Int
                } else {
                    NumState::Bad
                }
            },
            NumState::IntStart => {
                if is_digit {
                    NumState::Int
                } else {
                    NumState::Bad
                }
            },
            NumState::Int => {
                if is_digit {
                    NumState::Int
                } else if c == '.' {
                    NumState::FracStart
                } else if c == 'e' || c == 'E' {
                    NumState::ExpSign
                } else {
                    NumState::Bad
                }
            },
            NumState::FracStart => {
                if is_digit {
                    NumState::Frac
                } else {
                    NumState::Bad
                }
            },
            NumState::Frac => {
                if is_digit {
                    NumState::Frac
                } else if c == 'e' || c == 'E' {
                    NumState::ExpSign
                } else {
                    NumState::Bad
                }
            },
            NumState::ExpSign => {
                if c == '-' || c == '+' {
                    NumState::ExpStart
                } else if is_digit {
                    NumState::Exp
                } else {
                    NumState::Bad
                }
            },
            NumState::ExpStart => {
                if is_digit {
                    NumState::Exp
                } else {
                    NumState::Bad
                }
            },
            NumState::Exp => {
                if is_digit {
                    NumState::Exp
                } else {
                    NumState::Bad
                }
            },
            NumState::Bad => NumState::Bad,
        };
        i = i + 1;
    }
    match state {
        NumState::Int => true,
        NumState::Frac => true,
        NumState::Exp => true,
        _ => false,
    }
}

// ---------------------------------------------------------------------------
// The address service.
// ---------------------------------------------------------------------------

/// The shape of one address reply.
pub open spec fn addr_entry_json_of(name: Seq<char>, ip: Seq<char>, port: Seq<char>) -> JsonV {
    JsonV::Obj(
        seq![
            ("name"@, JsonV::Str(name)),
            ("ip"@, JsonV::Str(ip)),
            ("port"@, JsonV::Str(port)),
        ],
    )
}

/// The shape of the whole-registry reply, keyed by name in registration
/// order.
pub open spec fn address_getall_of(av: Seq<(Seq<char>, Seq<char>, Seq<char>)>) -> JsonV {
    JsonV::Obj(Seq::new(av.len(), |i: int| (av[i].0, addr_entry_json_of(av[i].0, av[i].1, av[i].2))))
}

/// The address service's command semantics: `register`, `unregister`,
/// `get` and `getall`, each with its exact arity; anything else is
/// refused.
pub open spec fn handle_address_m(
    av: Seq<(Seq<char>, Seq<char>, Seq<char>)>,
    toks: Seq<Seq<char>>,
) -> (Seq<(Seq<char>, Seq<char>, Seq<char>)>, Result<Option<JsonV>, Seq<char>>) {
    if toks.len() == 4 && toks[0] == "register"@ {
        (
            crate::address::addr_register(av, toks[1], toks[2], toks[3]),
            Result::Ok(Some(JsonV::Obj(Seq::<(Seq<char>, JsonV)>::empty()))),
        )
    } else if toks.len() == 2 && toks[0] == "unregister"@ {
        (
            crate::address::addr_unregister(av, toks[1]),
            Result::Ok(Some(JsonV::Obj(Seq::<(Seq<char>, JsonV)>::empty()))),
        )
    } else if toks.len() == 2 && toks[0] == "get"@ {
        match crate::address::afind_from(av, toks[1], 0) {
            Some(i) => (av, Result::Ok(Some(addr_entry_json_of(toks[1], av[i].1, av[i].2)))),
            None => (av, Result::Err(crate::error::msg_address_not_exists(toks[1]))),
        }
    } else if toks.len() == 1 && toks[0] == "getall"@ {
        (av, Result::Ok(Some(address_getall_of(av))))
    } else {
        (av, Result::Err(crate::error::msg_invalid_args(join_tokens_n(toks, toks.len() as int))))
    }
}

/// Builds one address reply.
fn addr_entry_json(name: &String, ip: &String, port: &String) -> (r: Json)
    ensures
        jview(r) == addr_entry_json_of(name@, ip@, port@),
{
    let mut fields: Vec<(String, Json)> = Vec::new();
    fields.push(("name".to_owned(), Json::Str(name.clone())));
    fields.push(("ip".to_owned(), Json::Str(ip.clone())));
    fields.push(("port".to_owned(), Json::Str(port.clone())));
    proof {
        lemma_jviews_obj(fields@);
        assert(jviews_obj(fields@) =~= seq![
            ("name"@, JsonV::Str(name@)),
            ("ip"@, JsonV::Str(ip@)),
            ("port"@, JsonV::Str(port@)),
        ]);
    }
    Json::Obj(fields)
}

/// Dispatches one command of the address service.
pub fn handle_address(dir: &mut crate::address::AddressDirectory, args: &Vec<String>) -> (r:
    Result<Option<Json>, Error>)
    ensures
        ({
            let (av2, res) = handle_address_m(
                crate::address::addr_view(*old(dir)),
                args.deep_view(),
            );
            &&& crate::address::addr_view(*final(dir)) == av2
            &&& match (r, res) {
                (Result::Ok(Some(j)), Result::Ok(Some(jv))) => jview(j) == jv,
                (Result::Ok(None), Result::Ok(None)) => true,
                (Result::Err(e), Result::Err(m)) => message_of(e) == m,
                _ => false,
            }
        }),
{
    proof {
        lemma_deep_view_strings(args);
    }
    if args.len() == 4 && str_eq(args[0].as_str(), "register") {
        crate::address::register_address(dir, &args[1], &args[2], &args[3]);
        Ok(Some(empty_object()))
    } else if args.len() == 2 && str_eq(args[0].as_str(), "unregister") {
        crate::address::unregister_address(dir, &args[1]);
        Ok(Some(empty_object()))
    } else if args.len() == 2 && str_eq(args[0].as_str(), "get") {
        match dir.get(&args[1]) {
            Some((ip, port)) => Ok(Some(addr_entry_json(&args[1], &ip, &port))),
            None => Err(Error::AddressNotExists(args[1].clone())),
        }
    } else if args.len() == 1 && str_eq(args[0].as_str(), "getall") {
        let ghost av = crate::address::addr_view(*dir);
        let all = dir.get_all();
        proof {
            assert(crate::address::addr_view(
                (crate::address::AddressDirectory { entries: all }),
            ) == av);
        }
        let mut fields: Vec<(String, Json)> = Vec::new();
        let mut i: usize = 0;
        while i < all.len()
            invariant
                i <= all@.len(),
                av.len() == all@.len(),
                forall|j: int| 0 <= j < all@.len() ==> av[j] == (
                    all@[j].0@,
                    all@[j].1@,
                    all@[j].2@,
                ),
                fields@.len() == i,
                forall|j: int| 0 <= j < i ==> (fields@[j].0@, jview(fields@[j].1)) == (
                    av[j].0,
                    addr_entry_json_of(av[j].0, av[j].1, av[j].2),
                ),
            decreases all@.len() - i,
        {
            let entry = addr_entry_json(&all[i].0, &all[i].1, &all[i].2);
            let key = all[i].0.clone();
            fields.push((key, entry));
            i = i + 1;
        }
        proof {
            lemma_jviews_obj(fields@);
            assert(jviews_obj(fields@) =~= Seq::new(av.len(), |j: int| (
                av[j].0,
                addr_entry_json_of(av[j].0, av[j].1, av[j].2),
            )));
        }
        Ok(Some(Json::Obj(fields)))
    } else {
        Err(Error::InvalidArgs(join_tokens(args)))
    }
}

// ---------------------------------------------------------------------------
// The mirror service.
// ---------------------------------------------------------------------------

/// The shape of one mirror reply.
pub open spec fn mirror_entry_json_of(kind: Seq<char>, port: Seq<char>) -> JsonV {
    JsonV::Obj(seq![("kind"@, JsonV::Str(kind)), ("port"@, JsonV::Str(port))])
}

/// The shape of the whole-registry reply, keyed by name.
pub open spec fn mirror_getall_of(mv: Seq<(Seq<char>, Seq<char>, Seq<char>)>) -> JsonV {
    JsonV::Obj(Seq::new(mv.len(), |i: int| (mv[i].0, mirror_entry_json_of(mv[i].1, mv[i].2))))
}

/// The mirror service's command semantics: `register` and `unregister`
/// answer nothing, `getall` and `get` answer registry content, anything
/// else is ignored. Registration mirrors into the address directory under
/// the composite alias.
pub open spec fn handle_mirror_m(
    mv: Seq<(Seq<char>, Seq<char>, Seq<char>)>,
    av: Seq<(Seq<char>, Seq<char>, Seq<char>)>,
    toks: Seq<Seq<char>>,
) -> (
    Seq<(Seq<char>, Seq<char>, Seq<char>)>,
    Seq<(Seq<char>, Seq<char>, Seq<char>)>,
    Result<Option<JsonV>, Seq<char>>,
) {
    if toks.len() >= 4 && toks[0] == "register"@ {
        (
            crate::mirror::mirror_register_m(mv, toks[1], toks[2], toks[3]),
            crate::address::addr_register(
                av,
                crate::mirror::mirror_alias(toks[1], toks[2], toks[3]),
                "127.0.0.1"@,
                toks[3],
            ),
            Result::Ok(None),
        )
    } else if toks.len() >= 2 && toks[0] == "unregister"@ {
        let av2 = match crate::mirror::mfind_from(mv, toks[1], 0) {
            Some(i) => crate::address::addr_unregister(
                av,
                crate::mirror::mirror_alias(mv[i].0, mv[i].1, mv[i].2),
            ),
            None => av,
        };
        (crate::mirror::mirror_unregister_m(mv, toks[1]), av2, Result::Ok(None))
    } else if toks.len() >= 1 && toks[0] == "getall"@ {
        (mv, av, Result::Ok(Some(mirror_getall_of(mv))))
    } else if toks.len() >= 2 && toks[0] == "get"@ {
        match crate::mirror::mfind_from(mv, toks[1], 0) {
            Some(i) => (mv, av, Result::Ok(Some(mirror_entry_json_of(mv[i].1, mv[i].2)))),
            None => (mv, av, Result::Err(crate::error::msg_address_not_exists(toks[1]))),
        }
    } else {
        (mv, av, Result::Ok(None))
    }
}

/// Builds one mirror reply.
fn mirror_entry_json(kind: &String, port: &String) -> (r: Json)
    ensures
        jview(r) == mirror_entry_json_of(kind@, port@),
{
    let mut fields: Vec<(String, Json)> = Vec::new();
    fields.push(("kind".to_owned(), Json::Str(kind.clone())));
    fields.push(("port".to_owned(), Json::Str(port.clone())));
    proof {
        lemma_jviews_obj(fields@);
        assert(jviews_obj(fields@) =~= seq![
            ("kind"@, JsonV::Str(kind@)),
            ("port"@, JsonV::Str(port@)),
        ]);
    }
    Json::Obj(fields)
}

/// Dispatches one command of the mirror service.
pub fn handle_mirror(
    mir: &mut crate::mirror::MirrorDirectory,
    addrs: &mut crate::address::AddressDirectory,
    args: &Vec<String>,
) -> (r: Result<Option<Json>, Error>)
    ensures
        ({
            let (mv2, av2, res) = handle_mirror_m(
                crate::mirror::mirror_view(*old(mir)),
                crate::address::addr_view(*old(addrs)),
                args.deep_view(),
            );
            &&& crate::mirror::mirror_view(*final(mir)) == mv2
            &&& crate::address::addr_view(*final(addrs)) == av2
            &&& match (r, res) {
                (Result::Ok(Some(j)), Result::Ok(Some(jv))) => jview(j) == jv,
                (Result::Ok(None), Result::Ok(None)) => true,
                (Result::Err(e), Result::Err(m)) => message_of(e) == m,
                _ => false,
            }
        }),
{
    proof {
        lemma_deep_view_strings(args);
    }
    if args.len() >= 4 && str_eq(args[0].as_str(), "register") {
        crate::mirror::register_mirror(mir, addrs, &args[1], &args[2], &args[3]);
        Ok(None)
    } else if args.len() >= 2 && str_eq(args[0].as_str(), "unregister") {
        crate::mirror::unregister_mirror(mir, addrs, &args[1]);
        Ok(None)
    } else if args.len() >= 1 && str_eq(args[0].as_str(), "getall") {
        let ghost mv = crate::mirror::mirror_view(*mir);
        let all = mir.get_all();
        proof {
            assert(crate::mirror::mirror_view(
                (crate::mirror::MirrorDirectory { entries: all }),
            ) == mv);
        }
        let mut fields: Vec<(String, Json)> = Vec::new();
        let mut i: usize = 0;
        while i < all.len()
            invariant
                i <= all@.len(),
                mv.len() == all@.len(),
                forall|j: int| 0 <= j < all@.len() ==> mv[j] == (
                    all@[j].0@,
                    all@[j].1@,
                    all@[j].2@,
                ),
                fields@.len() == i,
                forall|j: int| 0 <= j < i ==> (fields@[j].0@, jview(fields@[j].1)) == (
                    mv[j].0,
                    mirror_entry_json_of(mv[j].1, mv[j].2),
                ),
            decreases all@.len() - i,
        {
            let entry = mirror_entry_json(&all[i].1, &all[i].2);
            let key = all[i].0.clone();
            fields.push((key, entry));
            i = i + 1;
        }
        proof {
            lemma_jviews_obj(fields@);
            assert(jviews_obj(fields@) =~= Seq::new(mv.len(), |j: int| (
                mv[j].0,
                mirror_entry_json_of(mv[j].1, mv[j].2),
            )));
        }
        Ok(Some(Json::Obj(fields)))
    } else if args.len() >= 2 && str_eq(args[0].as_str(), "get") {
        match mir.get(&args[1]) {
            Some((kind, port)) => Ok(Some(mirror_entry_json(&kind, &port))),
            None => Err(Error::AddressNotExists(args[1].clone())),
        }
    } else {
        Ok(None)
    }
}

// ---------------------------------------------------------------------------
// The logging service.
// ---------------------------------------------------------------------------

/// One parsed log request: a level, the client's thread name, and the
/// decoded message.
pub struct LogCommand {
    pub level: String,
    pub thread_name: String,
    pub message: String,
}

/// The logging service's command shape: exactly a level, a thread name
/// and a base64 message.
pub open spec fn log_cmd_of(toks: Seq<Seq<char>>) -> Result<
    (Seq<char>, Seq<char>, Seq<char>),
    Seq<char>,
> {
    if toks.len() == 3 {
        match payload_of(toks[2]) {
            Some(m) => Result::Ok((toks[0], toks[1], m)),
            None => Result::Err(crate::error::msg_invalid_base64(toks[2])),
        }
    } else {
        Result::Err(crate::error::msg_invalid_args(join_tokens_n(toks, toks.len() as int)))
    }
}

/// Parses one log request, decoding its message.
pub fn parse_logging_command(args: &Vec<String>) -> (r: Result<LogCommand, Error>)
    ensures
        ({
            let res = log_cmd_of(args.deep_view());
            match (r, res) {
                (Result::Ok(c), Result::Ok((lv, tn, m))) => c.level@ == lv && c.thread_name@ == tn
                    && c.message@ == m,
                (Result::Err(e), Result::Err(msg)) => message_of(e) == msg,
                _ => false,
            }
        }),
{
    proof {
        lemma_deep_view_strings(args);
    }
    if args.len() == 3 {
        match crate::b64::decode_payload(&args[2]) {
            Ok(message) => Ok(
                LogCommand { level: args[0].clone(), thread_name: args[1].clone(), message },
            ),
            Err(e) => Err(e),
        }
    } else {
        Err(Error::InvalidArgs(join_tokens(args)))
    }
}

// ---------------------------------------------------------------------------
// The process-launch service.
// ---------------------------------------------------------------------------

/// The launch service's command shape: `run` carries one base64 JSON
/// payload; anything else is ignored.
pub open spec fn function_cmd_of(toks: Seq<Seq<char>>) -> Result<Option<Seq<char>>, Seq<char>> {
    if toks.len() >= 2 && toks[0] == "run"@ {
        match payload_of(toks[1]) {
            Some(t) => Result::Ok(Some(t)),
            None => Result::Err(crate::error::msg_invalid_base64(toks[1])),
        }
    } else {
        Result::Ok(None)
    }
}

/// Parses one launch request, decoding its JSON text.
pub fn parse_function_command(args: &Vec<String>) -> (r: Result<Option<String>, Error>)
    ensures
        ({
            let res = function_cmd_of(args.deep_view());
            match (r, res) {
                (Result::Ok(Some(t)), Result::Ok(Some(tv))) => t@ == tv,
                (Result::Ok(None), Result::Ok(None)) => true,
                (Result::Err(e), Result::Err(msg)) => message_of(e) == msg,
                _ => false,
            }
        }),
{
    proof {
        lemma_deep_view_strings(args);
    }
    if args.len() >= 2 && str_eq(args[0].as_str(), "run") {
        match crate::b64::decode_payload(&args[1]) {
            Ok(t) => Ok(Some(t)),
            Err(e) => Err(e),
        }
    } else {
        Ok(None)
    }
}

// ---------------------------------------------------------------------------
// The settings service: command parsing and reply building. The JSON
// payloads themselves are decoded from base64 here; reading them into
// values is the host process's work.
// ---------------------------------------------------------------------------

/// One parsed settings command; payloads are decoded JSON text.
pub enum SettingCommand {
    Get(String),
    ListChildren(String),
    GenerateJson(String),
    AddOrUpdate(String, String),
    AddOrUpdateDefault(String, String),
    AddOrUpdateAttr(String, String, String),
}

/// The shape of a parsed settings command.
pub enum SettingCommandV {
    Get(Seq<char>),
    ListChildren(Seq<char>),
    GenerateJson(Seq<char>),
    AddOrUpdate(Seq<char>, Seq<char>),
    AddOrUpdateDefault(Seq<char>, Seq<char>),
    AddOrUpdateAttr(Seq<char>, Seq<char>, Seq<char>),
}

pub open spec fn setting_cmd_view(c: SettingCommand) -> SettingCommandV {
    match c {
        SettingCommand::Get(k) => SettingCommandV::Get(k@),
        SettingCommand::ListChildren(k) => SettingCommandV::ListChildren(k@),
        SettingCommand::GenerateJson(k) => SettingCommandV::GenerateJson(k@),
        SettingCommand::AddOrUpdate(k, t) => SettingCommandV::AddOrUpdate(k@, t@),
        SettingCommand::AddOrUpdateDefault(k, t) => SettingCommandV::AddOrUpdateDefault(k@, t@),
        SettingCommand::AddOrUpdateAttr(k, a, t) => SettingCommandV::AddOrUpdateAttr(
            k@,
            a@,
            t@,
        ),
    }
}

/// The settings service's command shapes; unknown verbs are ignored, and
/// a payload that is not base64 is refused.
pub open spec fn setting_cmd_of(toks: Seq<Seq<char>>) -> Result<
    Option<SettingCommandV>,
    Seq<char>,
> {
    if toks.len() >= 2 && toks[0] == "get"@ {
        Result::Ok(Some(SettingCommandV::Get(toks[1])))
    } else if toks.len() >= 2 && toks[0] == "list_children"@ {
        Result::Ok(Some(SettingCommandV::ListChildren(toks[1])))
    } else if toks.len() >= 3 && toks[0] == "add_or_update_default"@ {
        match payload_of(toks[2]) {
            Some(t) => Result::Ok(Some(SettingCommandV::AddOrUpdateDefault(toks[1], t))),
            None => Result::Err(crate::error::msg_invalid_base64(toks[2])),
        }
    } else if toks.len() >= 3 && toks[0] == "add_or_update"@ {
        match payload_of(toks[2]) {
            Some(t) => Result::Ok(Some(SettingCommandV::AddOrUpdate(toks[1], t))),
            None => Result::Err(crate::error::msg_invalid_base64(toks[2])),
        }
    } else if toks.len() >= 4 && toks[0] == "add_or_update_attr"@ {
        match payload_of(toks[3]) {
            Some(t) => Result::Ok(Some(SettingCommandV::AddOrUpdateAttr(toks[1], toks[2], t))),
            None => Result::Err(crate::error::msg_invalid_base64(toks[3])),
        }
    } else if toks.len() >= 2 && toks[0] == "generate_json"@ {
        Result::Ok(Some(SettingCommandV::GenerateJson(toks[1])))
    } else {
        Result::Ok(None)
    }
}

/// Parses one settings command, decoding its payload.
pub fn parse_setting_command(args: &Vec<String>) -> (r: Result<Option<SettingCommand>, Error>)
    ensures
        ({
            let res = setting_cmd_of(args.deep_view());
            match (r, res) {
                (Result::Ok(Some(c)), Result::Ok(Some(cv))) => setting_cmd_view(c) == cv,
                (Result::Ok(None), Result::Ok(None)) => true,
                (Result::Err(e), Result::Err(msg)) => message_of(e) == msg,
                _ => false,
            }
        }),
{
    proof {
        lemma_deep_view_strings(args);
    }
    if args.len() >= 2 && str_eq(args[0].as_str(), "get") {
        Ok(Some(SettingCommand::Get(args[1].clone())))
    } else if args.len() >= 2 && str_eq(args[0].as_str(), "list_children") {
        Ok(Some(SettingCommand::ListChildren(args[1].clone())))
    } else if args.len() >= 3 && str_eq(args[0].as_str(), "add_or_update_default") {
        match crate::b64::decode_payload(&args[2]) {
            Ok(t) => Ok(Some(SettingCommand::AddOrUpdateDefault(args[1].clone(), t))),
            Err(e) => Err(e),
        }
    } else if args.len() >= 3 && str_eq(args[0].as_str(), "add_or_update") {
        match crate::b64::decode_payload(&args[2]) {
            Ok(t) => Ok(Some(SettingCommand::AddOrUpdate(args[1].clone(), t))),
            Err(e) => Err(e),
        }
    } else if args.len() >= 4 && str_eq(args[0].as_str(), "add_or_update_attr") {
        match crate::b64::decode_payload(&args[3]) {
            Ok(t) => Ok(Some(SettingCommand::AddOrUpdateAttr(args[1].clone(), args[2].clone(), t))),
            Err(e) => Err(e),
        }
    } else if args.len() >= 2 && str_eq(args[0].as_str(), "generate_json") {
        Ok(Some(SettingCommand::GenerateJson(args[1].clone())))
    } else {
        Ok(None)
    }
}

/// The shape of a settings `get` reply.
pub open spec fn setting_json_of(
    name: Seq<char>,
    value: JsonV,
    default_value: JsonV,
    attribute: Seq<(Seq<char>, JsonV)>,
) -> JsonV {
    JsonV::Obj(
        seq![
            ("name"@, JsonV::Str(name)),
            ("value"@, value),
            ("default_value"@, default_value),
            ("attribute"@, JsonV::Obj(attribute)),
        ],
    )
}

/// Builds a settings `get` reply from a node's reported content.
pub fn setting_json(d: crate::setting::SettingData) -> (r: Json)
    ensures
        jview(r) == setting_json_of(
            d.name@,
            jview(d.value),
            jview(d.default_value),
            crate::setting_item::attrs_view(d.attribute@),
        ),
{
    let attrs = fields_object(d.attribute);
    let mut fields: Vec<(String, Json)> = Vec::new();
    fields.push(("name".to_owned(), Json::Str(d.name)));
    fields.push(("value".to_owned(), d.value));
    fields.push(("default_value".to_owned(), d.default_value));
    fields.push(("attribute".to_owned(), attrs));
    proof {
        lemma_jviews_obj(fields@);
        assert(jviews_obj(fields@) =~= seq![
            ("name"@, jview(fields@[0].1)),
            ("value"@, jview(fields@[1].1)),
            ("default_value"@, jview(fields@[2].1)),
            ("attribute"@, jview(fields@[3].1)),
        ]);
    }
    Json::Obj(fields)
}

// ---------------------------------------------------------------------------
// The task service.
// ---------------------------------------------------------------------------

/// The shape of a JSON number carrying an integer.
pub open spec fn num_json_of(n: u64) -> JsonV {
    JsonV::Num(crate::strutil::dec_str_of(n as nat))
}

/// A JSON number carrying an integer.
fn num_json(n: u64) -> (r: Json)
    ensures
        jview(r) == num_json_of(n),
{
    Json::Num(crate::strutil::u64_to_string(n))
}

/// The shape of one task reply.
pub open spec fn task_json_of(t: crate::task::TcbV) -> JsonV {
    JsonV::Obj(
        seq![
            ("id"@, num_json_of(t.id)),
            ("name"@, JsonV::Str(t.name)),
            ("progress"@, JsonV::Num(t.progress)),
            ("current_work"@, JsonV::Str(t.current_work)),
            ("parent"@, num_json_of(t.parent)),
            (
                "children"@,
                JsonV::Arr(Seq::new(t.children.len(), |i: int| num_json_of(t.children[i]))),
            ),
        ],
    )
}

/// The shape of the whole-store reply, keyed by decimal id in creation
/// order.
pub open spec fn tasks_getall_of(ts: Seq<crate::task::TcbV>) -> JsonV {
    JsonV::Obj(
        Seq::new(
            ts.len(),
            |i: int| (crate::strutil::dec_str_of(ts[i].id as nat), task_json_of(ts[i])),
        ),
    )
}

/// Builds one task reply.
fn task_json(t: &crate::task::TCB) -> (r: Json)
    ensures
        jview(r) == task_json_of(crate::task::tcb_view(*t)),
{
    let mut children: Vec<Json> = Vec::new();
    let mut k: usize = 0;
    while k < t.children.len()
        invariant
            k <= t.children@.len(),
            children@.len() == k,
            forall|j: int| 0 <= j < k ==> jview(children@[j]) == num_json_of(t.children@[j]),
        decreases t.children@.len() - k,
    {
        let c = num_json(t.children[k]);
        children.push(c);
        k = k + 1;
    }
    proof {
        lemma_jviews(children@);
        assert(jviews(children@) =~= Seq::new(t.children@.len(), |i: int| num_json_of(
            t.children@[i],
        )));
    }
    let mut fields: Vec<(String, Json)> = Vec::new();
    fields.push(("id".to_owned(), num_json(t.id)));
    fields.push(("name".to_owned(), Json::Str(t.name.clone())));
    fields.push(("progress".to_owned(), Json::Num(t.progress.clone())));
    fields.push(("current_work".to_owned(), Json::Str(t.current_work.clone())));
    fields.push(("parent".to_owned(), num_json(t.parent)));
    fields.push(("children".to_owned(), Json::Arr(children)));
    proof {
        lemma_jviews_obj(fields@);
        assert(jviews_obj(fields@) =~= seq![
            ("id"@, jview(fields@[0].1)),
            ("name"@, jview(fields@[1].1)),
            ("progress"@, jview(fields@[2].1)),
            ("current_work"@, jview(fields@[3].1)),
            ("parent"@, jview(fields@[4].1)),
            ("children"@, jview(fields@[5].1)),
        ]);
    }
    Json::Obj(fields)
}

/// One modify target applied at the view level.
pub open spec fn task_attr_set(t: crate::task::TcbV, attr: Seq<char>, v: Seq<char>) -> crate::task::TcbV {
    if attr == "name"@ {
        crate::task::TcbV { name: v, ..t }
    } else if attr == "progress"@ {
        crate::task::TcbV { progress: v, ..t }
    } else {
        crate::task::TcbV { current_work: v, ..t }
    }
}

/// The task service's command semantics: `create`, `remove`, `modify`,
/// `get` and `getall`, each with its exact arity; ids must be decimal, a
/// progress value must have number syntax, and anything else is refused.
pub open spec fn handle_task_m(
    ts: Seq<crate::task::TcbV>,
    next_id: u64,
    toks: Seq<Seq<char>>,
) -> (Seq<crate::task::TcbV>, u64, Result<Option<JsonV>, Seq<char>>) {
    let invalid = Result::<Option<JsonV>, Seq<char>>::Err(
        crate::error::msg_invalid_args(join_tokens_n(toks, toks.len() as int)),
    );
    if toks.len() == 3 && toks[0] == "create"@ {
        match parse_u64_of(toks[2]) {
            Some(pid) => {
                if next_id < u64::MAX {
                    (
                        crate::task::task_create_m(ts, next_id, toks[1], pid as u64),
                        (next_id + 1) as u64,
                        Result::Ok(
                            Some(JsonV::Obj(seq![("id"@, num_json_of(next_id))])),
                        ),
                    )
                } else {
                    (ts, next_id, Result::Err(crate::error::msg_io_failure("task ids exhausted"@)))
                }
            },
            None => (ts, next_id, invalid),
        }
    } else if toks.len() == 2 && toks[0] == "get"@ {
        match parse_u64_of(toks[1]) {
            Some(id) => match crate::task::tfind_from(ts, id as u64, 0) {
                Some(i) => (ts, next_id, Result::Ok(Some(task_json_of(ts[i])))),
                None => (ts, next_id, Result::Err(crate::error::msg_task_not_exists(id as u64))),
            },
            None => (ts, next_id, invalid),
        }
    } else if toks.len() == 1 && toks[0] == "getall"@ {
        (ts, next_id, Result::Ok(Some(tasks_getall_of(ts))))
    } else if toks.len() == 2 && toks[0] == "remove"@ {
        match parse_u64_of(toks[1]) {
            Some(id) => match crate::task::tfind_from(ts, id as u64, 0) {
                Some(i) => (
                    crate::task::task_remove_m(ts, i),
                    next_id,
                    Result::Ok(Some(JsonV::Obj(Seq::<(Seq<char>, JsonV)>::empty()))),
                ),
                None => (ts, next_id, Result::Err(crate::error::msg_task_not_exists(id as u64))),
            },
            None => (ts, next_id, invalid),
        }
    } else if toks.len() == 4 && toks[0] == "modify"@ {
        match parse_u64_of(toks[1]) {
            Some(id) => {
                if toks[2] == "name"@ || toks[2] == "current_work"@ || (toks[2] == "progress"@
                    && is_number_text(toks[3])) {
                    match crate::task::tfind_from(ts, id as u64, 0) {
                        Some(i) => (
                            ts.update(i, task_attr_set(ts[i], toks[2], toks[3])),
                            next_id,
                            Result::Ok(Some(JsonV::Obj(Seq::<(Seq<char>, JsonV)>::empty()))),
                        ),
                        None => (
                            ts,
                            next_id,
                            Result::Err(crate::error::msg_task_not_exists(id as u64)),
                        ),
                    }
                } else {
                    (ts, next_id, invalid)
                }
            },
            None => (ts, next_id, invalid),
        }
    } else {
        (ts, next_id, invalid)
    }
}

/// Dispatches one command of the task service.
pub fn handle_task(tasks: &mut crate::task::TaskTree, args: &Vec<String>) -> (r: Result<
    Option<Json>,
    Error,
>)
    ensures
        ({
            let (ts2, ni2, res) = handle_task_m(
                crate::task::tasks_view(*old(tasks)),
                old(tasks).next_id,
                args.deep_view(),
            );
            &&& crate::task::tasks_view(*final(tasks)) == ts2
            &&& final(tasks).next_id == ni2
            &&& match (r, res) {
                (Result::Ok(Some(j)), Result::Ok(Some(jv))) => jview(j) == jv,
                (Result::Ok(None), Result::Ok(None)) => true,
                (Result::Err(e), Result::Err(m)) => message_of(e) == m,
                _ => false,
            }
        }),
{
    proof {
        lemma_deep_view_strings(args);
    }
    if args.len() == 3 && str_eq(args[0].as_str(), "create") {
        match parse_u64(&args[2]) {
            Some(pid) => {
                if tasks.next_id < u64::MAX {
                    let id = tasks.create(args[1].clone(), pid);
                    let mut fields: Vec<(String, Json)> = Vec::new();
                    fields.push(("id".to_owned(), num_json(id)));
                    proof {
                        lemma_jviews_obj(fields@);
                        assert(jviews_obj(fields@) =~= seq![("id"@, num_json_of(id))]);
                    }
                    Ok(Some(Json::Obj(fields)))
                } else {
                    Err(Error::IOFailure("task ids exhausted".to_owned()))
                }
            },
            None => Err(Error::InvalidArgs(join_tokens(args))),
        }
    } else if args.len() == 2 && str_eq(args[0].as_str(), "get") {
        match parse_u64(&args[1]) {
            Some(id) => match tasks.get(id) {
                Ok(t) => Ok(Some(task_json(&t))),
                Err(e) => Err(e),
            },
            None => Err(Error::InvalidArgs(join_tokens(args))),
        }
    } else if args.len() == 1 && str_eq(args[0].as_str(), "getall") {
        let ghost ts = crate::task::tasks_view(*tasks);
        let all = tasks.get_all();
        let mut fields: Vec<(String, Json)> = Vec::new();
        let mut i: usize = 0;
        while i < all.len()
            invariant
                i <= all@.len(),
                ts.len() == all@.len(),
                forall|j: int| 0 <= j < all@.len() ==> ts[j] == crate::task::tcb_view(all@[j]),
                fields@.len() == i,
                forall|j: int| 0 <= j < i ==> (fields@[j].0@, jview(fields@[j].1)) == (
                    crate::strutil::dec_str_of(ts[j].id as nat),
                    task_json_of(ts[j]),
                ),
            decreases all@.len() - i,
        {
            let key = crate::strutil::u64_to_string(all[i].id);
            let tj = task_json(&all[i]);
            fields.push((key, tj));
            i = i + 1;
        }
        proof {
            lemma_jviews_obj(fields@);
            assert(jviews_obj(fields@) =~= Seq::new(ts.len(), |j: int| (
                crate::strutil::dec_str_of(ts[j].id as nat),
                task_json_of(ts[j]),
            )));
        }
        Ok(Some(Json::Obj(fields)))
    } else if args.len() == 2 && str_eq(args[0].as_str(), "remove") {
        match parse_u64(&args[1]) {
            Some(id) => match tasks.remove(id) {
                Ok(()) => Ok(Some(empty_object())),
                Err(e) => Err(e),
            },
            None => Err(Error::InvalidArgs(join_tokens(args))),
        }
    } else if args.len() == 4 && str_eq(args[0].as_str(), "modify") {
        match parse_u64(&args[1]) {
            Some(id) => {
                let is_name = str_eq(args[2].as_str(), "name");
                let is_work = str_eq(args[2].as_str(), "current_work");
                let is_progress = str_eq(args[2].as_str(), "progress");
                if is_name || is_work || (is_progress && check_number_text(&args[3])) {
                    let attr = if is_name {
                        crate::task::TaskAttr::Name(args[3].clone())
                    } else if is_work {
                        crate::task::TaskAttr::CurrentWork(args[3].clone())
                    } else {
                        crate::task::TaskAttr::Progress(args[3].clone())
                    };
                    proof {
                        reveal_strlit("name");
                        reveal_strlit("current_work");
                        reveal_strlit("progress");
                        assert("name"@.len() == 4);
                        assert("current_work"@.len() == 12);
                        assert("progress"@.len() == 8);
                    }
                    match tasks.modify(id, attr) {
                        Ok(()) => Ok(Some(empty_object())),
                        Err(e) => Err(e),
                    }
                } else {
                    Err(Error::InvalidArgs(join_tokens(args)))
                }
            },
            None => Err(Error::InvalidArgs(join_tokens(args))),
        }
    } else {
        Err(Error::InvalidArgs(join_tokens(args)))
    }
}

// ---------------------------------------------------------------------------
// The filesystem service.
// ---------------------------------------------------------------------------

/// The shape of a `fileinfo` reply.
pub open spec fn fileinfo_json_of(
    name: Seq<char>,
    path: Seq<char>,
    backing: Seq<Seq<char>>,
) -> JsonV {
    JsonV::Obj(
        seq![
            ("name"@, JsonV::Str(name)),
            ("path"@, JsonV::Str(path)),
            ("native_paths"@, str_arr_of(backing)),
        ],
    )
}

/// The filesystem service's command semantics, over the resolution and
/// listing models; the last element names a native directory the host
/// must create (`makedirs`), with a flag for an ambiguous choice among
/// several backing locations.
pub open spec fn handle_fs_m(
    rootv: crate::fcb::FcbV,
    mv: Seq<(Seq<char>, Seq<Seq<char>>)>,
    dv: Seq<(Seq<char>, Seq<Seq<char>>)>,
    toks: Seq<Seq<char>>,
) -> (
    crate::fcb::FcbV,
    Seq<(Seq<char>, Seq<Seq<char>>)>,
    Result<Option<JsonV>, Seq<char>>,
    Option<(Seq<char>, bool)>,
) {
    if toks.len() >= 2 && toks[0] == "fileinfo"@ {
        let (r1, res) = crate::filesystem::vfs_resolve(rootv, mv, dv, toks[1], false);
        match res {
            Result::Ok(c) => {
                let n = crate::filesystem::node_at(r1, c, 0)->Some_0;
                (r1, mv, Result::Ok(Some(fileinfo_json_of(n.name, n.path, n.backing))), None)
            },
            Result::Err(p) => (r1, mv, Result::Err(crate::error::msg_file_not_found(p)), None),
        }
    } else if toks.len() >= 2 && toks[0] == "listdir"@ {
        let (r1, res) = crate::filesystem::listdir_m(
            rootv,
            mv,
            dv,
            crate::strutil::split_segs(toks[1], false),
            crate::filesystem::MOUNT_DEPTH_LIMIT as nat,
        );
        match res {
            Result::Ok(names) => (r1, mv, Result::Ok(Some(names_json_of(names))), None),
            Result::Err(p) => (r1, mv, Result::Err(crate::error::msg_file_not_found(p)), None),
        }
    } else if toks.len() >= 3 && toks[0] == "mount_native"@ {
        let (r1, res) = crate::filesystem::vfs_resolve(rootv, mv, dv, toks[1], true);
        match res {
            Result::Ok(c) => (
                crate::filesystem::edit_at(
                    r1,
                    c,
                    0,
                    crate::filesystem::EditV::AddBacking(toks[2]),
                ),
                mv,
                Result::Ok(Some(JsonV::Obj(Seq::<(Seq<char>, JsonV)>::empty()))),
                None,
            ),
            Result::Err(p) => (r1, mv, Result::Err(crate::error::msg_file_not_found(p)), None),
        }
    } else if toks.len() >= 3 && toks[0] == "unmount_native"@ {
        let (r1, res) = crate::filesystem::vfs_resolve(rootv, mv, dv, toks[1], true);
        match res {
            Result::Ok(c) => (
                crate::filesystem::edit_at(
                    crate::filesystem::edit_at(
                        r1,
                        c,
                        0,
                        crate::filesystem::EditV::RemoveBacking(toks[2]),
                    ),
                    c,
                    0,
                    crate::filesystem::EditV::ClearChildren,
                ),
                mv,
                Result::Ok(Some(JsonV::Obj(Seq::<(Seq<char>, JsonV)>::empty()))),
                None,
            ),
            Result::Err(p) => (r1, mv, Result::Err(crate::error::msg_file_not_found(p)), None),
        }
    } else if toks.len() >= 2 && toks[0] == "makedirs"@ {
        let (r1, res) = crate::filesystem::vfs_resolve(rootv, mv, dv, toks[1], true);
        match res {
            Result::Ok(c) => {
                let n = crate::filesystem::node_at(r1, c, 0)->Some_0;
                if n.backing.len() == 0 {
                    (
                        r1,
                        mv,
                        Result::Err(crate::error::msg_io_failure("no backing location"@)),
                        None,
                    )
                } else {
                    (
                        r1,
                        mv,
                        Result::Ok(Some(JsonV::Obj(Seq::<(Seq<char>, JsonV)>::empty()))),
                        Some((n.backing[0], n.backing.len() > 1)),
                    )
                }
            },
            Result::Err(p) => (r1, mv, Result::Err(crate::error::msg_file_not_found(p)), None),
        }
    } else if toks.len() >= 3 && toks[0] == "mount"@ {
        let (r1, res) = crate::filesystem::vfs_resolve(rootv, mv, dv, toks[1], true);
        match res {
            Result::Ok(c) => {
                let n = crate::filesystem::node_at(r1, c, 0)->Some_0;
                (
                    r1,
                    crate::filesystem::mount_add(mv, n.path, toks[2]),
                    Result::Ok(Some(JsonV::Obj(Seq::<(Seq<char>, JsonV)>::empty()))),
                    None,
                )
            },
            Result::Err(p) => (r1, mv, Result::Err(crate::error::msg_file_not_found(p)), None),
        }
    } else if toks.len() >= 3 && toks[0] == "unmount"@ {
        let (r1, res) = crate::filesystem::vfs_resolve(rootv, mv, dv, toks[1], true);
        match res {
            Result::Ok(c) => {
                let n = crate::filesystem::node_at(r1, c, 0)->Some_0;
                (
                    crate::filesystem::edit_at(r1, c, 0, crate::filesystem::EditV::ClearChildren),
                    crate::filesystem::mount_remove(mv, n.path, toks[2]),
                    Result::Ok(Some(JsonV::Obj(Seq::<(Seq<char>, JsonV)>::empty()))),
                    None,
                )
            },
            Result::Err(p) => (r1, mv, Result::Err(crate::error::msg_file_not_found(p)), None),
        }
    } else {
        (rootv, mv, Result::Ok(None), None)
    }
}

/// Builds a `fileinfo` reply from a node's reported content.
fn fileinfo_json(nd: crate::filesystem::NodeData) -> (r: Json)
    ensures
        jview(r) == fileinfo_json_of(nd.name@, nd.path@, nd.native_paths.deep_view()),
{
    let arr = str_array(nd.native_paths);
    let mut fields: Vec<(String, Json)> = Vec::new();
    fields.push(("name".to_owned(), Json::Str(nd.name)));
    fields.push(("path".to_owned(), Json::Str(nd.path)));
    fields.push(("native_paths".to_owned(), arr));
    proof {
        lemma_jviews_obj(fields@);
        assert(jviews_obj(fields@) =~= seq![
            ("name"@, jview(fields@[0].1)),
            ("path"@, jview(fields@[1].1)),
            ("native_paths"@, jview(fields@[2].1)),
        ]);
    }
    Json::Obj(fields)
}

/// Dispatches one command of the filesystem service. Beside the reply,
/// names the native directory the host must now create, if any.
pub fn handle_filesystem(
    vfs: &mut crate::filesystem::Vfs,
    disk: &crate::disk::Disk,
    args: &Vec<String>,
) -> (r: (Result<Option<Json>, Error>, Option<(String, bool)>))
    ensures
        ({
            let (r2, mv2, res, mk) = handle_fs_m(
                crate::fcb::fcb_view(old(vfs).root),
                crate::filesystem::mounts_view(old(vfs).mounts),
                crate::disk::disk_view(*disk),
                args.deep_view(),
            );
            &&& crate::fcb::fcb_view(final(vfs).root) == r2
            &&& crate::filesystem::mounts_view(final(vfs).mounts) == mv2
            &&& match (r.0, res) {
                (Result::Ok(Some(j)), Result::Ok(Some(jv))) => jview(j) == jv,
                (Result::Ok(None), Result::Ok(None)) => true,
                (Result::Err(e), Result::Err(m)) => message_of(e) == m,
                _ => false,
            }
            &&& match (r.1, mk) {
                (Some((d, amb)), Some((dv2, ambv))) => d@ == dv2 && amb == ambv,
                (None, None) => true,
                _ => false,
            }
        }),
{
    proof {
        lemma_deep_view_strings(args);
    }
    if args.len() >= 2 && str_eq(args[0].as_str(), "fileinfo") {
        match crate::filesystem::get_fcb(vfs, disk, &args[1]) {
            Ok(nd) => (Ok(Some(fileinfo_json(nd))), None),
            Err(e) => (Err(e), None),
        }
    } else if args.len() >= 2 && str_eq(args[0].as_str(), "listdir") {
        match crate::filesystem::listdir(vfs, disk, &args[1]) {
            Ok(names) => (Ok(Some(names_json(names))), None),
            Err(e) => (Err(e), None),
        }
    } else if args.len() >= 3 && str_eq(args[0].as_str(), "mount_native") {
        match crate::filesystem::mount_native(vfs, disk, &args[1], &args[2]) {
            Ok(()) => (Ok(Some(empty_object())), None),
            Err(e) => (Err(e), None),
        }
    } else if args.len() >= 3 && str_eq(args[0].as_str(), "unmount_native") {
        match crate::filesystem::unmount_native(vfs, disk, &args[1], &args[2]) {
            Ok(()) => (Ok(Some(empty_object())), None),
            Err(e) => (Err(e), None),
        }
    } else if args.len() >= 2 && str_eq(args[0].as_str(), "makedirs") {
        match crate::filesystem::makedirs(vfs, disk, &args[1]) {
            Ok((dir, ambiguous)) => (Ok(Some(empty_object())), Some((dir, ambiguous))),
            Err(e) => (Err(e), None),
        }
    } else if args.len() >= 3 && str_eq(args[0].as_str(), "mount") {
        match crate::filesystem::mount(vfs, disk, &args[1], &args[2]) {
            Ok(()) => (Ok(Some(empty_object())), None),
            Err(e) => (Err(e), None),
        }
    } else if args.len() >= 3 && str_eq(args[0].as_str(), "unmount") {
        match crate::filesystem::unmount(vfs, disk, &args[1], &args[2]) {
            Ok(()) => (Ok(Some(empty_object())), None),
            Err(e) => (Err(e), None),
        }
    } else {
        (Ok(None), None)
    }
}

/// Wraps a flat field list as one JSON object.
pub fn fields_object(fields: Vec<(String, Json)>) -> (r: Json)
    ensures
        jview(r) == JsonV::Obj(crate::setting_item::attrs_view(fields@)),
{
    proof {
        lemma_jviews_obj(fields@);
        assert(jviews_obj(fields@) =~= crate::setting_item::attrs_view(fields@));
    }
    Json::Obj(fields)
}

} // verus!
