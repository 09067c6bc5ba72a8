//! The canonical token payload: a JSON object with fields `sub` (string),
//! `exp` (non-negative integer) and `roles` (array of role names), written
//! and read here byte by byte.
//!
//! Writing is canonical: fields in the order `sub`, `exp`, `roles`, no
//! whitespace, with `"`, `\` and control bytes escaped. Reading accepts the
//! fields in any order, ignores unknown fields, and fails closed on anything
//! else: absent or duplicate fields, malformed text, numbers that do not fit,
//! or role names outside the closed role set.

use vstd::prelude::*;

use crate::roles::{role_name_bytes, Role};

verus! {

pub const QUOTE: u8 = 34;

pub const BACKSLASH: u8 = 92;

pub const SLASH: u8 = 47;

pub const LBRACE: u8 = 123;

pub const RBRACE: u8 = 125;

pub const LBRACK: u8 = 91;

pub const RBRACK: u8 = 93;

pub const COLON: u8 = 58;

pub const COMMA: u8 = 44;

// ---------------------------------------------------------------------------
// Writing
// ---------------------------------------------------------------------------

/// The hexadecimal digit (lower case) for a value below sixteen.
pub open spec fn hex_digit(v: u8) -> u8 {
    if v < 10 {
        (48 + v) as u8
    } else {
        (87 + v) as u8
    }
}

/// How one byte of a string is written inside a JSON string: `"` and `\` get
/// a backslash escape, control bytes are written as `\u00` plus two hex
/// digits, everything else stands as itself.
pub open spec fn escape_byte(b: u8) -> Seq<u8> {
    if b == QUOTE {
        seq![BACKSLASH, QUOTE]
    } else if b == BACKSLASH {
        seq![BACKSLASH, BACKSLASH]
    } else if b < 32 {
        seq![BACKSLASH, 117u8, 48u8, 48u8, hex_digit(b / 16), hex_digit(b % 16)]
    } else {
        seq![b]
    }
}

/// The escaped form of a whole string body.
pub open spec fn escape_bytes(s: Seq<u8>) -> Seq<u8>
    decreases s.len(),
{
    if s.len() == 0 {
        Seq::empty()
    } else {
        escape_byte(s[0]) + escape_bytes(s.skip(1))
    }
}

/// The decimal digits of a non-negative integer, most significant first.
pub open spec fn dec_digits(n: int) -> Seq<u8>
    decreases n,
{
    if n < 0 {
        Seq::empty()
    } else if n < 10 {
        seq![(48 + n) as u8]
    } else {
        dec_digits(n / 10) + seq![(48 + n % 10) as u8]
    }
}

/// A string body between its two quotes.
pub open spec fn quoted(s: Seq<u8>) -> Seq<u8> {
    seq![QUOTE] + s + seq![QUOTE]
}

/// The tail of the roles array after its first element: zero or more
/// comma-separated role names, then the closing bracket.
pub open spec fn roles_json_rest(roles: Seq<Role>) -> Seq<u8>
    decreases roles.len(),
{
    if roles.len() == 0 {
        seq![RBRACK]
    } else {
        seq![COMMA] + quoted(role_name_bytes(roles[0])) + roles_json_rest(roles.skip(1))
    }
}

/// The roles array: role names as JSON strings, in order, duplicates kept.
pub open spec fn roles_json(roles: Seq<Role>) -> Seq<u8> {
    if roles.len() == 0 {
        seq![LBRACK, RBRACK]
    } else {
        seq![LBRACK] + quoted(role_name_bytes(roles[0])) + roles_json_rest(roles.skip(1))
    }
}

/// The bytes `{"sub":"`.
pub open spec fn lit_head() -> Seq<u8> {
    seq![LBRACE, QUOTE, 115u8, 117u8, 98u8, QUOTE, COLON, QUOTE]
}

/// The bytes `","exp":`.
pub open spec fn lit_exp() -> Seq<u8> {
    seq![QUOTE, COMMA, QUOTE, 101u8, 120u8, 112u8, QUOTE, COLON]
}

/// The bytes `,"roles":`.
pub open spec fn lit_roles() -> Seq<u8> {
    seq![COMMA, QUOTE, 114u8, 111u8, 108u8, 101u8, 115u8, QUOTE, COLON]
}

/// The key `sub`.
pub open spec fn key_sub() -> Seq<u8> {
    seq![115u8, 117u8, 98u8]
}

/// The key `exp`.
pub open spec fn key_exp() -> Seq<u8> {
    seq![101u8, 120u8, 112u8]
}

/// The key `roles`.
pub open spec fn key_roles() -> Seq<u8> {
    seq![114u8, 111u8, 108u8, 101u8, 115u8]
}

/// The canonical payload for a subject (as string bytes), an expiry and a
/// role sequence.
pub open spec fn claims_json(sub: Seq<u8>, exp: int, roles: Seq<Role>) -> Seq<u8> {
    lit_head() + escape_bytes(sub) + lit_exp() + dec_digits(exp) + lit_roles() + roles_json(roles)
        + seq![RBRACE]
}

/// Escaping distributes over concatenation.
pub(crate) proof fn lemma_escape_bytes_concat(a: Seq<u8>, b: Seq<u8>)
    ensures
        escape_bytes(a + b) == escape_bytes(a) + escape_bytes(b),
    decreases a.len(),
{
    if a.len() == 0 {
        assert(a + b =~= b);
        assert(escape_bytes(a) + escape_bytes(b) =~= escape_bytes(b));
    } else {
        lemma_escape_bytes_concat(a.skip(1), b);
        assert((a + b).skip(1) =~= a.skip(1) + b);
        assert(escape_byte((a + b)[0]) + (escape_bytes(a.skip(1)) + escape_bytes(b)) =~= (
        escape_byte(a[0]) + escape_bytes(a.skip(1))) + escape_bytes(b));
    }
}

fn push_escaped_byte(out: &mut Vec<u8>, b: u8)
    ensures
        final(out)@ == old(out)@ + escape_byte(b),
{
    if b == QUOTE {
        out.push(BACKSLASH);
        out.push(QUOTE);
        assert(out@ =~= old(out)@ + escape_byte(b));
    } else if b == BACKSLASH {
        out.push(BACKSLASH);
        out.push(BACKSLASH);
        assert(out@ =~= old(out)@ + escape_byte(b));
    } else if b < 32 {
        out.push(BACKSLASH);
        out.push(117);
        out.push(48);
        out.push(48);
        let hi = b / 16;
        let lo = b % 16;
        out.push(if hi < 10 { 48 + hi } else { 87 + hi });
        out.push(if lo < 10 { 48 + lo } else { 87 + lo });
        assert(out@ =~= old(out)@ + escape_byte(b));
    } else {
        out.push(b);
        assert(out@ =~= old(out)@ + escape_byte(b));
    }
}

fn push_escaped(out: &mut Vec<u8>, s: &[u8])
    ensures
        final(out)@ == old(out)@ + escape_bytes(s@),
{
    let mut i: usize = 0;
    while i < s.len()
        invariant
            i <= s.len(),
            out@ == old(out)@ + escape_bytes(s@.subrange(0, i as int)),
        decreases s.len() - i,
    {
        proof {
            let one = seq![s@[i as int]];
            assert(one.skip(1) =~= Seq::<u8>::empty());
            assert(escape_bytes(one) == escape_byte(one[0]) + escape_bytes(one.skip(1)));
            assert(escape_bytes(one) =~= escape_byte(s@[i as int]));
            lemma_escape_bytes_concat(s@.subrange(0, i as int), one);
            assert(s@.subrange(0, i + 1) =~= s@.subrange(0, i as int) + one);
        }
        push_escaped_byte(out, s[i]);
        assert(out@ =~= old(out)@ + escape_bytes(s@.subrange(0, i + 1)));
        i += 1;
    }
    proof {
        assert(s@.subrange(0, s@.len() as int) =~= s@);
    }
}

fn push_dec(out: &mut Vec<u8>, n: u64)
    ensures
        final(out)@ == old(out)@ + dec_digits(n as int),
    decreases n,
{
    if n < 10 {
        out.push(48 + (n as u8));
        assert(out@ =~= old(out)@ + dec_digits(n as int));
    } else {
        push_dec(out, n / 10);
        out.push(48 + ((n % 10) as u8));
        assert(out@ =~= old(out)@ + dec_digits(n as int));
    }
}

fn push_quoted_name(out: &mut Vec<u8>, role: &Role)
    ensures
        final(out)@ == old(out)@ + quoted(role_name_bytes(*role)),
{
    out.push(QUOTE);
    let name = role.wire_name();
    let mut i: usize = 0;
    while i < name.len()
        invariant
            i <= name.len(),
            name@ == role_name_bytes(*role),
            out@ == old(out)@ + seq![QUOTE] + name@.subrange(0, i as int),
        decreases name.len() - i,
    {
        out.push(name[i]);
        proof {
            assert(name@.subrange(0, i + 1) =~= name@.subrange(0, i as int) + seq![name@[i as int]]);
            assert(out@ =~= old(out)@ + seq![QUOTE] + name@.subrange(0, i + 1));
        }
        i += 1;
    }
    out.push(QUOTE);
    proof {
        assert(name@.subrange(0, name@.len() as int) =~= name@);
        assert(out@ =~= old(out)@ + quoted(role_name_bytes(*role)));
    }
}

fn push_roles(out: &mut Vec<u8>, roles: &Vec<Role>)
    ensures
        final(out)@ == old(out)@ + roles_json(roles@),
{
    out.push(LBRACK);
    if roles.len() == 0 {
        out.push(RBRACK);
        assert(out@ =~= old(out)@ + roles_json(roles@));
        return ;
    }
    push_quoted_name(out, &roles[0]);
    let mut i: usize = 1;
    while i < roles.len()
        invariant
            1 <= i <= roles.len(),
            roles.len() > 0,
            out@ + roles_json_rest(roles@.skip(i as int)) == old(out)@ + roles_json(roles@),
        decreases roles.len() - i,
    {
        out.push(COMMA);
        push_quoted_name(out, &roles[i]);
        proof {
            assert(roles@.skip(i as int)[0] == roles@[i as int]);
            assert(roles@.skip(i as int).skip(1) =~= roles@.skip(i + 1));
            assert(roles_json_rest(roles@.skip(i as int)) =~= seq![COMMA] + quoted(
                role_name_bytes(roles@[i as int]),
            ) + roles_json_rest(roles@.skip(i + 1)));
            assert(out@ + roles_json_rest(roles@.skip(i + 1)) =~= old(out)@ + roles_json(roles@));
        }
        i += 1;
    }
    out.push(RBRACK);
    proof {
        assert(roles@.skip(roles@.len() as int) =~= Seq::<Role>::empty());
        assert(roles_json_rest(roles@.skip(roles@.len() as int)) =~= seq![RBRACK]);
        assert(out@ =~= old(out)@ + roles_json(roles@));
    }
}

/// Writes the canonical payload for the given subject, expiry and roles.
pub(crate) fn claims_payload(sub: &str, exp: u64, roles: &Vec<Role>) -> (v: Vec<u8>)
    ensures
        v@ == claims_json(vstd::utf8::encode_utf8(sub@), exp as int, roles@),
{
    let mut out: Vec<u8> = Vec::new();
    out.push(LBRACE);
    out.push(QUOTE);
    out.push(115);
    out.push(117);
    out.push(98);
    out.push(QUOTE);
    out.push(COLON);
    out.push(QUOTE);
    assert(out@ =~= lit_head());
    push_escaped(&mut out, sub.as_bytes());
    out.push(QUOTE);
    out.push(COMMA);
    out.push(QUOTE);
    out.push(101);
    out.push(120);
    out.push(112);
    out.push(QUOTE);
    out.push(COLON);
    assert(out@ =~= lit_head() + escape_bytes(vstd::utf8::encode_utf8(sub@)) + lit_exp());
    push_dec(&mut out, exp);
    out.push(COMMA);
    out.push(QUOTE);
    out.push(114);
    out.push(111);
    out.push(108);
    out.push(101);
    out.push(115);
    out.push(QUOTE);
    out.push(COLON);
    assert(out@ =~= lit_head() + escape_bytes(vstd::utf8::encode_utf8(sub@)) + lit_exp()
        + dec_digits(exp as int) + lit_roles());
    push_roles(&mut out, roles);
    out.push(RBRACE);
    assert(out@ =~= claims_json(vstd::utf8::encode_utf8(sub@), exp as int, roles@));
    out
}


// ---------------------------------------------------------------------------
// Reading: specification
// ---------------------------------------------------------------------------

pub open spec fn is_digit(b: u8) -> bool {
    48 <= b <= 57
}

/// The value of a hexadecimal digit byte, or a negative number if it is none.
pub open spec fn hex_val(b: u8) -> int {
    if 48 <= b <= 57 {
        b - 48
    } else if 97 <= b <= 102 {
        b - 87
    } else if 65 <= b <= 70 {
        b - 55
    } else {
        -1
    }
}

/// The end of the run of decimal digits starting at `i`.
pub open spec fn digits_end(s: Seq<u8>, i: int) -> int
    decreases s.len() - i,
{
    if i < 0 || i >= s.len() {
        i
    } else if is_digit(s[i]) {
        digits_end(s, i + 1)
    } else {
        i
    }
}

/// The number a run of decimal digits denotes.
pub open spec fn digits_val(ds: Seq<u8>) -> int
    decreases ds.len(),
{
    if ds.len() == 0 {
        0
    } else {
        digits_val(ds.drop_last()) * 10 + (ds.last() - 48)
    }
}

/// Reads a non-negative integer at `i`: a digit run without a superfluous
/// leading zero, whose value fits an unsigned 64-bit word.
pub open spec fn sp_u64(s: Seq<u8>, i: int) -> Option<(int, int)> {
    let e = digits_end(s, i);
    if e == i || i < 0 {
        None
    } else if s[i] == 48 && e > i + 1 {
        None
    } else if digits_val(s.subrange(i, e)) > 0xFFFF_FFFF_FFFF_FFFFu64 {
        None
    } else {
        Some((digits_val(s.subrange(i, e)), e))
    }
}

/// Joins one read byte onto the front of the rest of a string body.
pub open spec fn prepend(b: u8, r: Option<(Seq<u8>, int)>) -> Option<(Seq<u8>, int)> {
    match r {
        None => None,
        Some((v, j)) => Some((seq![b] + v, j)),
    }
}

/// Reads a string body from `i` (just after the opening quote) up to and
/// including the closing quote, undoing escapes. Escapes are the two-byte
/// ones of JSON and `\u` followed by four hexadecimal digits below 0x80;
/// anything else, a bare control byte, or a missing closing quote fails.
pub open spec fn sp_str_body(s: Seq<u8>, i: int) -> Option<(Seq<u8>, int)>
    decreases s.len() - i,
{
    if i < 0 || i >= s.len() {
        None
    } else if s[i] == QUOTE {
        Some((Seq::empty(), i + 1))
    } else if s[i] == BACKSLASH {
        if i + 1 >= s.len() {
            None
        } else {
            let c = s[i + 1];
            if c == QUOTE || c == BACKSLASH || c == SLASH {
                prepend(c, sp_str_body(s, i + 2))
            } else if c == 98 {
                prepend(8, sp_str_body(s, i + 2))
            } else if c == 102 {
                prepend(12, sp_str_body(s, i + 2))
            } else if c == 110 {
                prepend(10, sp_str_body(s, i + 2))
            } else if c == 114 {
                prepend(13, sp_str_body(s, i + 2))
            } else if c == 116 {
                prepend(9, sp_str_body(s, i + 2))
            } else if c == 117 {
                if i + 5 >= s.len() {
                    None
                } else {
                    let v = hex_val(s[i + 2]) * 4096 + hex_val(s[i + 3]) * 256 + hex_val(
                        s[i + 4],
                    ) * 16 + hex_val(s[i + 5]);
                    if hex_val(s[i + 2]) < 0 || hex_val(s[i + 3]) < 0 || hex_val(s[i + 4]) < 0
                        || hex_val(s[i + 5]) < 0 || v >= 128 {
                        None
                    } else {
                        prepend(v as u8, sp_str_body(s, i + 6))
                    }
                }
            } else {
                None
            }
        }
    } else if s[i] < 32 {
        None
    } else {
        prepend(s[i], sp_str_body(s, i + 1))
    }
}

/// Reads a whole JSON string at `i`: an opening quote, then a body.
pub open spec fn sp_string(s: Seq<u8>, i: int) -> Option<(Seq<u8>, int)> {
    if 0 <= i < s.len() && s[i] == QUOTE {
        sp_str_body(s, i + 1)
    } else {
        None
    }
}

/// The role a wire name denotes, if any.
pub open spec fn role_of_name(name: Seq<u8>) -> Option<Role> {
    if name == role_name_bytes(Role::Admin) {
        Some(Role::Admin)
    } else if name == role_name_bytes(Role::User) {
        Some(Role::User)
    } else if name == role_name_bytes(Role::Guest) {
        Some(Role::Guest)
    } else {
        None
    }
}

/// Joins one read role onto the front of the rest of a roles array.
pub open spec fn prepend_role(r: Role, rest: Option<(Seq<Role>, int)>) -> Option<(Seq<Role>, int)> {
    match rest {
        None => None,
        Some((v, j)) => Some((seq![r] + v, j)),
    }
}

/// Reads the rest of a roles array from a separator position `i` (holding
/// `[` or `,`): either the closing bracket, or one more role name and the
/// rest. A name outside the closed role set fails.
pub open spec fn sp_roles_rest(s: Seq<u8>, i: int) -> Option<(Seq<Role>, int)>
    decreases s.len() - i,
{
    if i < 0 || i + 1 >= s.len() {
        None
    } else if s[i + 1] == RBRACK {
        Some((Seq::empty(), i + 2))
    } else {
        match sp_string(s, i + 1) {
            None => None,
            Some((name, j)) => {
                if !(i + 1 < j && j <= s.len()) {
                    None
                } else {
                    match role_of_name(name) {
                        None => None,
                        Some(role) => {
                            if j < s.len() && (s[j] == COMMA || s[j] == RBRACK) {
                                if s[j] == RBRACK {
                                    Some((seq![role], j + 1))
                                } else {
                                    prepend_role(role, sp_roles_rest(s, j))
                                }
                            } else {
                                None
                            }
                        },
                    }
                }
            },
        }
    }
}

/// Reads a roles array at `i`.
pub open spec fn sp_roles(s: Seq<u8>, i: int) -> Option<(Seq<Role>, int)> {
    if 0 <= i < s.len() && s[i] == LBRACK {
        sp_roles_rest(s, i)
    } else {
        None
    }
}

/// A byte that may continue a JSON number token.
pub open spec fn is_num_byte(b: u8) -> bool {
    is_digit(b) || b == 45 || b == 43 || b == 46 || b == 101 || b == 69
}

/// The end of the run of number bytes starting at `i`.
pub open spec fn num_end(s: Seq<u8>, i: int) -> int
    decreases s.len() - i,
{
    if i < 0 || i >= s.len() {
        i
    } else if is_num_byte(s[i]) {
        num_end(s, i + 1)
    } else {
        i
    }
}

/// Skips one JSON value of an unknown field, nested at most `depth` deep,
/// and gives the position after it.
pub open spec fn sp_skip_value(s: Seq<u8>, i: int, depth: int) -> Option<int>
    decreases depth, s.len() - i, 1int,
{
    if depth <= 0 || i < 0 || i >= s.len() {
        None
    } else if s[i] == QUOTE {
        match sp_str_body(s, i + 1) {
            None => None,
            Some((v, j)) => Some(j),
        }
    } else if s[i] == 116 {  // true
        if i + 4 <= s.len() && s[i + 1] == 114 && s[i + 2] == 117 && s[i + 3] == 101 {
            Some(i + 4)
        } else {
            None
        }
    } else if s[i] == 102 {  // false
        if i + 5 <= s.len() && s[i + 1] == 97 && s[i + 2] == 108 && s[i + 3] == 115 && s[i + 4]
            == 101 {
            Some(i + 5)
        } else {
            None
        }
    } else if s[i] == 110 {  // null
        if i + 4 <= s.len() && s[i + 1] == 117 && s[i + 2] == 108 && s[i + 3] == 108 {
            Some(i + 4)
        } else {
            None
        }
    } else if is_num_byte(s[i]) {
        Some(num_end(s, i))
    } else if s[i] == LBRACK {
        if i + 1 < s.len() && s[i + 1] == RBRACK {
            Some(i + 2)
        } else {
            sp_skip_elems(s, i, depth)
        }
    } else if s[i] == LBRACE {
        if i + 1 < s.len() && s[i + 1] == RBRACE {
            Some(i + 2)
        } else {
            sp_skip_members(s, i, depth)
        }
    } else {
        None
    }
}

/// Skips array elements from a separator position `i` (holding `[` or `,`).
pub open spec fn sp_skip_elems(s: Seq<u8>, i: int, depth: int) -> Option<int>
    decreases depth, s.len() - i, 0int,
{
    if depth <= 0 || i < 0 {
        None
    } else {
        match sp_skip_value(s, i + 1, depth - 1) {
            None => None,
            Some(j) => {
                if !(i + 1 < j && j <= s.len()) {
                    None
                } else if j < s.len() && s[j] == RBRACK {
                    Some(j + 1)
                } else if j < s.len() && s[j] == COMMA {
                    sp_skip_elems(s, j, depth)
                } else {
                    None
                }
            },
        }
    }
}

/// Skips object members from a separator position `i` (holding `{` or `,`).
pub open spec fn sp_skip_members(s: Seq<u8>, i: int, depth: int) -> Option<int>
    decreases depth, s.len() - i, 0int,
{
    if depth <= 0 || i < 0 {
        None
    } else {
        match sp_string(s, i + 1) {
            None => None,
            Some((key, j)) => {
                if !(i + 1 < j && j <= s.len()) {
                    None
                } else if j >= s.len() || s[j] != COLON {
                    None
                } else {
                    match sp_skip_value(s, j + 1, depth - 1) {
                        None => None,
                        Some(k) => {
                            if !(j + 1 < k && k <= s.len()) {
                                None
                            } else if k < s.len() && s[k] == RBRACE {
                                Some(k + 1)
                            } else if k < s.len() && s[k] == COMMA {
                                sp_skip_members(s, k, depth)
                            } else {
                                None
                            }
                        },
                    }
                }
            },
        }
    }
}

/// How deep a value of an unknown field may nest before reading fails
/// closed.
pub const SKIP_DEPTH: u64 = 64;

/// Reads the members of the payload object from a separator position `i`
/// (holding `{` or `,`), with the fields gathered so far. A field read twice
/// fails; an unknown field is skipped.
pub open spec fn sp_claims_members(
    s: Seq<u8>,
    i: int,
    sub: Option<Seq<u8>>,
    exp: Option<int>,
    roles: Option<Seq<Role>>,
) -> Option<((Option<Seq<u8>>, Option<int>, Option<Seq<Role>>), int)>
    decreases s.len() - i,
{
    if i < 0 {
        None
    } else {
        match sp_string(s, i + 1) {
            None => None,
            Some((key, j)) => {
                if !(i + 1 < j && j <= s.len()) {
                    None
                } else if j >= s.len() || s[j] != COLON {
                    None
                } else {
                    let step = sp_claims_member_value(s, j, key, sub, exp, roles);
                    match step {
                        None => None,
                        Some((acc, k)) => {
                            if !(j < k && k <= s.len()) {
                                None
                            } else if k < s.len() && s[k] == RBRACE {
                                Some((acc, k + 1))
                            } else if k < s.len() && s[k] == COMMA {
                                sp_claims_members(s, k, acc.0, acc.1, acc.2)
                            } else {
                                None
                            }
                        },
                    }
                }
            },
        }
    }
}

/// Reads the value of one payload member whose key starts at `j` (holding
/// the colon), and folds it into the fields gathered so far.
pub open spec fn sp_claims_member_value(
    s: Seq<u8>,
    j: int,
    key: Seq<u8>,
    sub: Option<Seq<u8>>,
    exp: Option<int>,
    roles: Option<Seq<Role>>,
) -> Option<((Option<Seq<u8>>, Option<int>, Option<Seq<Role>>), int)> {
    if key == key_sub() {
        if sub is Some {
            None
        } else {
            match sp_string(s, j + 1) {
                None => None,
                Some((v, k)) => Some(((Some(v), exp, roles), k)),
            }
        }
    } else if key == key_exp() {
        if exp is Some {
            None
        } else {
            match sp_u64(s, j + 1) {
                None => None,
                Some((v, k)) => Some(((sub, Some(v), roles), k)),
            }
        }
    } else if key == key_roles() {
        if roles is Some {
            None
        } else {
            match sp_roles(s, j + 1) {
                None => None,
                Some((v, k)) => Some(((sub, exp, Some(v)), k)),
            }
        }
    } else {
        match sp_skip_value(s, j + 1, SKIP_DEPTH as int) {
            None => None,
            Some(k) => Some(((sub, exp, roles), k)),
        }
    }
}

/// Reads a whole payload: an object that yields exactly one `sub`, one `exp`
/// and one `roles`, with nothing after it.
pub open spec fn sp_claims(s: Seq<u8>) -> Option<(Seq<u8>, int, Seq<Role>)> {
    if s.len() == 0 || s[0] != LBRACE {
        None
    } else {
        match sp_claims_members(s, 0, None, None, None) {
            None => None,
            Some(((osub, oexp, oroles), end)) => {
                if end == s.len() {
                    match (osub, oexp, oroles) {
                        (Some(sub), Some(exp), Some(roles)) => Some((sub, exp, roles)),
                        _ => None,
                    }
                } else {
                    None
                }
            },
        }
    }
}


// ---------------------------------------------------------------------------
// Reading: execution
// ---------------------------------------------------------------------------

/// Whether two byte strings hold the same bytes.
pub(crate) fn bytes_eq(a: &[u8], b: &[u8]) -> (r: bool)
    ensures
        r == (a@ == b@),
{
    if a.len() != b.len() {
        proof {
            assert(a@ != b@);
        }
        return false;
    }
    let mut i: usize = 0;
    while i < a.len()
        invariant
            a.len() == b.len(),
            i <= a.len(),
            a@.subrange(0, i as int) == b@.subrange(0, i as int),
        decreases a.len() - i,
    {
        if a[i] != b[i] {
            proof {
                assert(a@[i as int] != b@[i as int]);
            }
            return false;
        }
        proof {
            assert(a@.subrange(0, i + 1) =~= a@.subrange(0, i as int) + seq![a@[i as int]]);
            assert(b@.subrange(0, i + 1) =~= b@.subrange(0, i as int) + seq![b@[i as int]]);
        }
        i += 1;
    }
    proof {
        assert(a@ =~= a@.subrange(0, a@.len() as int));
        assert(b@ =~= b@.subrange(0, b@.len() as int));
    }
    true
}

fn hex_val_of(b: u8) -> (r: i8)
    ensures
        r as int == hex_val(b),
{
    if 48 <= b && b <= 57 {
        (b - 48) as i8
    } else if 97 <= b && b <= 102 {
        (b - 87) as i8
    } else if 65 <= b && b <= 70 {
        (b - 55) as i8
    } else {
        -1
    }
}

/// `(acc + seq![b]) + v` and `acc + (seq![b] + v)` are the same string.
proof fn lemma_push_assoc<T>(acc: Seq<T>, b: T, v: Seq<T>)
    ensures
        acc + seq![b] + v == acc + (seq![b] + v),
{
    assert(acc + seq![b] + v =~= acc + (seq![b] + v));
}

/// What reading the rest of a string body from `j` means for the whole body
/// read from `i`, with `acc` the bytes already read.
pub(crate) open spec fn str_result_from(s: Seq<u8>, i: int, j: int, acc: Seq<u8>) -> bool {
    match sp_str_body(s, j) {
        None => sp_str_body(s, i) is None,
        Some((v, k)) => sp_str_body(s, i) == Some((acc + v, k)),
    }
}

proof fn lemma_str_step(s: Seq<u8>, i: int, j: int, acc: Seq<u8>, b: u8, j2: int)
    requires
        str_result_from(s, i, j, acc),
        sp_str_body(s, j) == prepend(b, sp_str_body(s, j2)),
    ensures
        str_result_from(s, i, j2, acc + seq![b]),
{
    match sp_str_body(s, j2) {
        None => {},
        Some((v, k)) => {
            lemma_push_assoc(acc, b, v);
        },
    }
}

/// Reads a JSON string at `i`: the opening quote, the body with escapes
/// undone, the closing quote.
pub(crate) fn parse_string(s: &[u8], i: usize) -> (r: Option<(Vec<u8>, usize)>)
    ensures
        match r {
            Some(p) => sp_string(s@, i as int) == Some((p.0@, p.1 as int)) && i + 1 < p.1
                && p.1 <= s@.len(),
            None => sp_string(s@, i as int) is None,
        },
{
    if i >= s.len() || s[i] != QUOTE {
        return None;
    }
    let mut j: usize = i + 1;
    let mut out: Vec<u8> = Vec::new();
    proof {
        match sp_str_body(s@, j as int) {
            None => {},
            Some((v, k)) => {
                assert(Seq::<u8>::empty() + v =~= v);
            },
        }
    }
    loop
        invariant
            i + 1 <= j <= s@.len(),
            i < s@.len(),
            s@[i as int] == QUOTE,
            str_result_from(s@, i + 1, j as int, out@),
        decreases s@.len() - j,
    {
        if j >= s.len() {
            return None;
        }
        let b = s[j];
        if b == QUOTE {
            proof {
                assert(out@ + Seq::<u8>::empty() =~= out@);
            }
            return Some((out, j + 1));
        } else if b == BACKSLASH {
            if s.len() - j <= 1 {
                return None;
            }
            let c = s[j + 1];
            let unescaped: u8;
            let width: usize;
            if c == QUOTE || c == BACKSLASH || c == SLASH {
                unescaped = c;
                width = 2;
            } else if c == 98 {
                unescaped = 8;
                width = 2;
            } else if c == 102 {
                unescaped = 12;
                width = 2;
            } else if c == 110 {
                unescaped = 10;
                width = 2;
            } else if c == 114 {
                unescaped = 13;
                width = 2;
            } else if c == 116 {
                unescaped = 9;
                width = 2;
            } else if c == 117 {
                if s.len() - j <= 5 {
                    return None;
                }
                let h1 = hex_val_of(s[j + 2]);
                let h2 = hex_val_of(s[j + 3]);
                let h3 = hex_val_of(s[j + 4]);
                let h4 = hex_val_of(s[j + 5]);
                if h1 < 0 || h2 < 0 || h3 < 0 || h4 < 0 {
                    return None;
                }
                let v: u32 = (h1 as u32) * 4096 + (h2 as u32) * 256 + (h3 as u32) * 16 + (
                h4 as u32);
                if v >= 128 {
                    return None;
                }
                unescaped = v as u8;
                width = 6;
            } else {
                return None;
            }
            proof {
                assert(sp_str_body(s@, j as int) == prepend(
                    unescaped,
                    sp_str_body(s@, j + width),
                ));
                lemma_str_step(s@, i + 1, j as int, out@, unescaped, j + width);
            }
            let ghost prev = out@;
            out.push(unescaped);
            proof {
                assert(out@ =~= prev + seq![unescaped]);
            }
            j += width;
        } else if b < 32 {
            return None;
        } else {
            proof {
                lemma_str_step(s@, i + 1, j as int, out@, b, j + 1);
            }
            let ghost prev = out@;
            out.push(b);
            proof {
                assert(out@ =~= prev + seq![b]);
            }
            j += 1;
        }
    }
}

proof fn lemma_digits_val_nonneg(ds: Seq<u8>)
    requires
        forall|k: int| 0 <= k < ds.len() ==> is_digit(ds[k]),
    ensures
        digits_val(ds) >= 0,
    decreases ds.len(),
{
    if ds.len() > 0 {
        lemma_digits_val_nonneg(ds.drop_last());
    }
}

/// The run of digits beginning at `i`: where it ends, and that everything
/// before the end is a digit.
proof fn lemma_digits_end(s: Seq<u8>, i: int)
    requires
        0 <= i <= s.len(),
    ensures
        i <= digits_end(s, i) <= s.len(),
        forall|k: int| i <= k < digits_end(s, i) ==> is_digit(s[k]),
        digits_end(s, i) == s.len() || !is_digit(s[digits_end(s, i)]),
    decreases s.len() - i,
{
    if i < s.len() && is_digit(s[i]) {
        lemma_digits_end(s, i + 1);
    }
}

/// A longer digit run never denotes a smaller number.
proof fn lemma_digits_val_mono(s: Seq<u8>, i: int, j: int, e: int)
    requires
        0 <= i <= j <= e <= s.len(),
        forall|k: int| i <= k < e ==> is_digit(s[k]),
    ensures
        digits_val(s.subrange(i, e)) >= digits_val(s.subrange(i, j)),
        digits_val(s.subrange(i, j)) >= 0,
    decreases e - j,
{
    assert forall|k: int| 0 <= k < s.subrange(i, j).len() implies is_digit(
        s.subrange(i, j)[k],
    ) by {
        assert(s.subrange(i, j)[k] == s[i + k]);
    }
    lemma_digits_val_nonneg(s.subrange(i, j));
    if j < e {
        lemma_digits_val_mono(s, i, j + 1, e);
        assert(s.subrange(i, j + 1).drop_last() =~= s.subrange(i, j));
        assert(digits_val(s.subrange(i, j + 1)) == digits_val(s.subrange(i, j)) * 10 + (s[j]
            - 48));
        assert(digits_val(s.subrange(i, j)) * 10 >= digits_val(s.subrange(i, j)));
    }
}

/// Reads a non-negative integer at `i` into a 64-bit word.
pub(crate) fn parse_u64(s: &[u8], i: usize) -> (r: Option<(u64, usize)>)
    ensures
        match r {
            Some(p) => sp_u64(s@, i as int) == Some((p.0 as int, p.1 as int)) && i < p.1
                && p.1 <= s@.len(),
            None => sp_u64(s@, i as int) is None,
        },
{
    if i >= s.len() || !(48 <= s[i] && s[i] <= 57) {
        if i < s.len() {
            proof {
                lemma_digits_end(s@, i as int);
            }
        }
        return None;
    }
    proof {
        lemma_digits_end(s@, i as int);
    }
    let mut j: usize = i;
    let mut acc: u64 = 0;
    while j < s.len() && 48 <= s[j] && s[j] <= 57
        invariant
            i <= j <= s@.len(),
            i < s@.len(),
            digits_end(s@, i as int) == digits_end(s@, j as int),
            forall|k: int| i <= k < j ==> is_digit(s@[k]),
            acc as int == digits_val(s@.subrange(i as int, j as int)),
        decreases s@.len() - j,
    {
        let d = s[j] - 48;
        if acc > (0xFFFF_FFFF_FFFF_FFFFu64 - (d as u64)) / 10 {
            proof {
                let e = digits_end(s@, i as int);
                lemma_digits_end(s@, i as int);
                lemma_digits_end(s@, j as int);
                assert(digits_end(s@, j as int) == digits_end(s@, j + 1));
                vstd::arithmetic::div_mod::lemma_fundamental_div_mod(
                    0xFFFF_FFFF_FFFF_FFFF - d,
                    10,
                );
                assert(s@.subrange(i as int, j + 1).drop_last() =~= s@.subrange(
                    i as int,
                    j as int,
                ));
                assert(digits_val(s@.subrange(i as int, j + 1)) == acc as int * 10 + d);
                assert(acc as int * 10 + d > 0xFFFF_FFFF_FFFF_FFFF);
                lemma_digits_val_mono(s@, i as int, j + 1, e);
                assert(digits_val(s@.subrange(i as int, e)) > 0xFFFF_FFFF_FFFF_FFFF);
            }
            return None;
        }
        proof {
            vstd::arithmetic::div_mod::lemma_fundamental_div_mod(0xFFFF_FFFF_FFFF_FFFF - d, 10);
            assert(acc as int * 10 + d <= 0xFFFF_FFFF_FFFF_FFFF);
            assert(s@.subrange(i as int, j + 1).drop_last() =~= s@.subrange(i as int, j as int));
            assert(digits_end(s@, j as int) == digits_end(s@, j + 1));
        }
        acc = acc * 10 + (d as u64);
        j += 1;
    }
    proof {
        assert(digits_end(s@, j as int) == j as int);
        assert(digits_end(s@, i as int) == j as int);
    }
    if s[i] == 48 && j > i + 1 {
        return None;
    }
    Some((acc, j))
}

fn key_sub_vec() -> (v: Vec<u8>)
    ensures
        v@ == key_sub(),
{
    let v = vec![115u8, 117u8, 98u8];
    proof {
        assert(v@ =~= key_sub());
    }
    v
}

fn key_exp_vec() -> (v: Vec<u8>)
    ensures
        v@ == key_exp(),
{
    let v = vec![101u8, 120u8, 112u8];
    proof {
        assert(v@ =~= key_exp());
    }
    v
}

fn key_roles_vec() -> (v: Vec<u8>)
    ensures
        v@ == key_roles(),
{
    let v = vec![114u8, 111u8, 108u8, 101u8, 115u8];
    proof {
        assert(v@ =~= key_roles());
    }
    v
}

/// The role a wire name denotes, if any.
pub(crate) fn role_from_name(name: &[u8]) -> (r: Option<Role>)
    ensures
        r == role_of_name(name@),
{
    let admin = Role::Admin.wire_name();
    if bytes_eq(name, admin.as_slice()) {
        return Some(Role::Admin);
    }
    let user = Role::User.wire_name();
    if bytes_eq(name, user.as_slice()) {
        return Some(Role::User);
    }
    let guest = Role::Guest.wire_name();
    if bytes_eq(name, guest.as_slice()) {
        return Some(Role::Guest);
    }
    None
}

/// What reading the rest of the roles array from `j` means for the whole
/// array read from `i`, with `acc` the roles already read.
pub(crate) open spec fn roles_result_from(s: Seq<u8>, i: int, j: int, acc: Seq<Role>) -> bool {
    match sp_roles_rest(s, j) {
        None => sp_roles(s, i) is None,
        Some((v, k)) => sp_roles(s, i) == Some((acc + v, k)),
    }
}

proof fn lemma_roles_step(s: Seq<u8>, i: int, j: int, acc: Seq<Role>, role: Role, j2: int)
    requires
        roles_result_from(s, i, j, acc),
        sp_roles_rest(s, j) == prepend_role(role, sp_roles_rest(s, j2)),
    ensures
        roles_result_from(s, i, j2, acc + seq![role]),
{
    match sp_roles_rest(s, j2) {
        None => {},
        Some((v, k)) => {
            lemma_push_assoc(acc, role, v);
        },
    }
}

/// Reads the roles array at `i`.
pub(crate) fn parse_roles(s: &[u8], i: usize) -> (r: Option<(Vec<Role>, usize)>)
    ensures
        match r {
            Some(p) => sp_roles(s@, i as int) == Some((p.0@, p.1 as int)) && i < p.1
                && p.1 <= s@.len(),
            None => sp_roles(s@, i as int) is None,
        },
{
    if i >= s.len() || s[i] != LBRACK {
        return None;
    }
    let mut j: usize = i;
    let mut out: Vec<Role> = Vec::new();
    proof {
        match sp_roles_rest(s@, j as int) {
            None => {},
            Some((v, k)) => {
                assert(Seq::<Role>::empty() + v =~= v);
            },
        }
    }
    loop
        invariant
            i <= j < s@.len(),
            roles_result_from(s@, i as int, j as int, out@),
        decreases s@.len() - j,
    {
        if s.len() - j <= 1 {
            return None;
        }
        if s[j + 1] == RBRACK {
            proof {
                assert(out@ + Seq::<Role>::empty() =~= out@);
            }
            return Some((out, j + 2));
        }
        match parse_string(s, j + 1) {
            None => {
                return None;
            },
            Some((name, j2)) => {
                match role_from_name(name.as_slice()) {
                    None => {
                        return None;
                    },
                    Some(role) => {
                        if j2 < s.len() && s[j2] == RBRACK {
                            proof {
                                assert(sp_roles_rest(s@, j as int) == Some(
                                    (seq![role], j2 + 1),
                                ));
                            }
                            let ghost prev = out@;
                            out.push(role);
                            proof {
                                assert(out@ =~= prev + seq![role]);
                            }
                            return Some((out, j2 + 1));
                        } else if j2 < s.len() && s[j2] == COMMA {
                            proof {
                                lemma_roles_step(
                                    s@,
                                    i as int,
                                    j as int,
                                    out@,
                                    role,
                                    j2 as int,
                                );
                            }
                            let ghost prev = out@;
                            out.push(role);
                            proof {
                                assert(out@ =~= prev + seq![role]);
                            }
                            j = j2;
                        } else {
                            return None;
                        }
                    },
                }
            },
        }
    }
}


fn is_num_byte_at(b: u8) -> (r: bool)
    ensures
        r == is_num_byte(b),
{
    (48 <= b && b <= 57) || b == 45 || b == 43 || b == 46 || b == 101 || b == 69
}

/// Skips one JSON value of an unknown field, nested at most `depth` deep.
fn skip_value(s: &[u8], i: usize, depth: u64) -> (r: Option<usize>)
    ensures
        match r {
            Some(j) => sp_skip_value(s@, i as int, depth as int) == Some(j as int) && i < j
                && j <= s@.len(),
            None => sp_skip_value(s@, i as int, depth as int) is None,
        },
    decreases depth,
{
    if depth == 0 || i >= s.len() {
        return None;
    }
    let b = s[i];
    if b == QUOTE {
        match parse_string(s, i) {
            None => None,
            Some((_v, j)) => Some(j),
        }
    } else if b == 116 {  // true
        if s.len() - i >= 4 && s[i + 1] == 114 && s[i + 2] == 117 && s[i + 3] == 101 {
            Some(i + 4)
        } else {
            None
        }
    } else if b == 102 {  // false
        if s.len() - i >= 5 && s[i + 1] == 97 && s[i + 2] == 108 && s[i + 3] == 115 && s[i + 4]
            == 101 {
            Some(i + 5)
        } else {
            None
        }
    } else if b == 110 {  // null
        if s.len() - i >= 4 && s[i + 1] == 117 && s[i + 2] == 108 && s[i + 3] == 108 {
            Some(i + 4)
        } else {
            None
        }
    } else if is_num_byte_at(b) {
        let mut j: usize = i;
        while j < s.len() && is_num_byte_at(s[j])
            invariant
                i <= j <= s@.len(),
                num_end(s@, i as int) == num_end(s@, j as int),
            decreases s@.len() - j,
        {
            j += 1;
        }
        Some(j)
    } else if b == LBRACK {
        if s.len() - i >= 2 && s[i + 1] == RBRACK {
            return Some(i + 2);
        }
        let mut j: usize = i;
        loop
            invariant
                i <= j < s@.len(),
                depth >= 1,
                s@.len() == s.len(),
                sp_skip_value(s@, i as int, depth as int) == sp_skip_elems(
                    s@,
                    j as int,
                    depth as int,
                ),
            decreases s@.len() - j,
        {
            match skip_value(s, j + 1, depth - 1) {
                None => {
                    return None;
                },
                Some(k) => {
                    if k < s.len() && s[k] == RBRACK {
                        return Some(k + 1);
                    } else if k < s.len() && s[k] == COMMA {
                        j = k;
                    } else {
                        return None;
                    }
                },
            }
        }
    } else if b == LBRACE {
        if s.len() - i >= 2 && s[i + 1] == RBRACE {
            return Some(i + 2);
        }
        let mut j: usize = i;
        loop
            invariant
                i <= j < s@.len(),
                depth >= 1,
                s@.len() == s.len(),
                sp_skip_value(s@, i as int, depth as int) == sp_skip_members(
                    s@,
                    j as int,
                    depth as int,
                ),
            decreases s@.len() - j,
        {
            match parse_string(s, j + 1) {
                None => {
                    return None;
                },
                Some((_key, j2)) => {
                    if j2 >= s.len() || s[j2] != COLON {
                        return None;
                    }
                    match skip_value(s, j2 + 1, depth - 1) {
                        None => {
                            return None;
                        },
                        Some(k) => {
                            if k < s.len() && s[k] == RBRACE {
                                return Some(k + 1);
                            } else if k < s.len() && s[k] == COMMA {
                                j = k;
                            } else {
                                return None;
                            }
                        },
                    }
                },
            }
        }
    } else {
        None
    }
}

/// The fields gathered so far, as the specification sees them.
pub(crate) open spec fn gathered_sub(o: Option<Vec<u8>>) -> Option<Seq<u8>> {
    match o {
        None => None,
        Some(v) => Some(v@),
    }
}

pub(crate) open spec fn gathered_exp(o: Option<u64>) -> Option<int> {
    match o {
        None => None,
        Some(v) => Some(v as int),
    }
}

pub(crate) open spec fn gathered_roles(o: Option<Vec<Role>>) -> Option<Seq<Role>> {
    match o {
        None => None,
        Some(v) => Some(v@),
    }
}

/// Reads a whole payload: the object must yield exactly one `sub`, one `exp`
/// and one `roles`, with nothing after it; unknown fields are skipped.
pub(crate) fn parse_claims(s: &[u8]) -> (r: Option<(Vec<u8>, u64, Vec<Role>)>)
    ensures
        match r {
            Some(p) => sp_claims(s@) == Some((p.0@, p.1 as int, p.2@)),
            None => sp_claims(s@) is None,
        },
{
    if s.len() == 0 || s[0] != LBRACE {
        return None;
    }
    let mut sub: Option<Vec<u8>> = None;
    let mut exp: Option<u64> = None;
    let mut roles: Option<Vec<Role>> = None;
    let mut j: usize = 0;
    let key_sub_bytes = key_sub_vec();
    let key_exp_bytes = key_exp_vec();
    let key_roles_bytes = key_roles_vec();
    loop
        invariant
            0 <= j < s@.len(),
            s@.len() == s.len(),
            s@[0] == LBRACE,
            key_sub_bytes@ == key_sub(),
            key_exp_bytes@ == key_exp(),
            key_roles_bytes@ == key_roles(),
            sp_claims_members(s@, 0, None, None, None) == sp_claims_members(
                s@,
                j as int,
                gathered_sub(sub),
                gathered_exp(exp),
                gathered_roles(roles),
            ),
        decreases s@.len() - j,
    {
        match parse_string(s, j + 1) {
            None => {
                return None;
            },
            Some((key, j2)) => {
                if j2 >= s.len() || s[j2] != COLON {
                    return None;
                }
                let k: usize;
                if bytes_eq(key.as_slice(), key_sub_bytes.as_slice()) {
                    if sub.is_some() {
                        return None;
                    }
                    match parse_string(s, j2 + 1) {
                        None => {
                            return None;
                        },
                        Some((v, k2)) => {
                            sub = Some(v);
                            k = k2;
                        },
                    }
                } else if bytes_eq(key.as_slice(), key_exp_bytes.as_slice()) {
                    if exp.is_some() {
                        return None;
                    }
                    match parse_u64(s, j2 + 1) {
                        None => {
                            return None;
                        },
                        Some((v, k2)) => {
                            exp = Some(v);
                            k = k2;
                        },
                    }
                } else if bytes_eq(key.as_slice(), key_roles_bytes.as_slice()) {
                    if roles.is_some() {
                        return None;
                    }
                    match parse_roles(s, j2 + 1) {
                        None => {
                            return None;
                        },
                        Some((v, k2)) => {
                            roles = Some(v);
                            k = k2;
                        },
                    }
                } else {
                    match skip_value(s, j2 + 1, SKIP_DEPTH) {
                        None => {
                            return None;
                        },
                        Some(k2) => {
                            k = k2;
                        },
                    }
                }
                if k < s.len() && s[k] == RBRACE {
                    if k + 1 != s.len() {
                        return None;
                    }
                    match (sub, exp, roles) {
                        (Some(sv), Some(ev), Some(rv)) => {
                            return Some((sv, ev, rv));
                        },
                        _ => {
                            return None;
                        },
                    }
                } else if k < s.len() && s[k] == COMMA {
                    j = k;
                } else {
                    return None;
                }
            },
        }
    }
}


// ---------------------------------------------------------------------------
// Reading back what was written
// ---------------------------------------------------------------------------

/// The bytes `t` stand in `s` at position `i`.
pub open spec fn at(s: Seq<u8>, i: int, t: Seq<u8>) -> bool {
    0 <= i && i + t.len() <= s.len() && s.subrange(i, i + t.len()) == t
}

pub(crate) proof fn lemma_at_concat(s: Seq<u8>, i: int, a: Seq<u8>, b: Seq<u8>)
    requires
        at(s, i, a + b),
    ensures
        at(s, i, a),
        at(s, i + a.len(), b),
{
    assert forall|k: int| 0 <= k < a.len() implies s.subrange(i, i + a.len())[k] == a[k] by {
        assert(s.subrange(i, i + (a + b).len())[k] == (a + b)[k]);
    }
    assert(s.subrange(i, i + a.len()) =~= a);
    assert forall|k: int| 0 <= k < b.len() implies s.subrange(
        i + a.len(),
        i + a.len() + b.len(),
    )[k] == b[k] by {
        assert(s.subrange(i, i + (a + b).len())[a.len() + k] == (a + b)[a.len() + k]);
    }
    assert(s.subrange(i + a.len(), i + a.len() + b.len()) =~= b);
}

pub(crate) proof fn lemma_at_index(s: Seq<u8>, i: int, t: Seq<u8>, k: int)
    requires
        at(s, i, t),
        0 <= k < t.len(),
    ensures
        s[i + k] == t[k],
{
    assert(s.subrange(i, i + t.len())[k] == t[k]);
}

/// A string of bytes that need no escape is its own escaped form.
proof fn lemma_escape_plain(t: Seq<u8>)
    requires
        forall|k: int| 0 <= k < t.len() ==> 32 <= t[k] && t[k] != QUOTE && t[k] != BACKSLASH,
    ensures
        escape_bytes(t) == t,
    decreases t.len(),
{
    if t.len() > 0 {
        assert forall|k: int| 0 <= k < t.skip(1).len() implies 32 <= t.skip(1)[k] && t.skip(1)[k]
            != QUOTE && t.skip(1)[k] != BACKSLASH by {
            assert(t.skip(1)[k] == t[k + 1]);
        }
        lemma_escape_plain(t.skip(1));
        assert(escape_byte(t[0]) =~= seq![t[0]]);
        assert(seq![t[0]] + t.skip(1) =~= t);
    }
}

/// Reading a string body over the escaped form of `x`, with a closing quote
/// after it, gives `x` back.
proof fn lemma_str_body_of_escape(s: Seq<u8>, i: int, x: Seq<u8>)
    requires
        at(s, i, escape_bytes(x)),
        i + escape_bytes(x).len() < s.len(),
        s[i + escape_bytes(x).len()] == QUOTE,
    ensures
        sp_str_body(s, i) == Some((x, i + escape_bytes(x).len() + 1)),
    decreases x.len(),
{
    if x.len() == 0 {
        assert(escape_bytes(x) =~= Seq::<u8>::empty());
        assert(x =~= Seq::<u8>::empty());
    } else {
        let b = x[0];
        let e0 = escape_byte(b);
        let rest = escape_bytes(x.skip(1));
        assert(escape_bytes(x) == e0 + rest);
        lemma_at_concat(s, i, e0, rest);
        lemma_str_body_of_escape(s, i + e0.len(), x.skip(1));
        assert(seq![b] + x.skip(1) =~= x);
        if b == QUOTE {
            lemma_at_index(s, i, e0, 0);
            lemma_at_index(s, i, e0, 1);
            assert(sp_str_body(s, i) == prepend(b, sp_str_body(s, i + 2)));
        } else if b == BACKSLASH {
            lemma_at_index(s, i, e0, 0);
            lemma_at_index(s, i, e0, 1);
            assert(sp_str_body(s, i) == prepend(b, sp_str_body(s, i + 2)));
        } else if b < 32 {
            lemma_at_index(s, i, e0, 0);
            lemma_at_index(s, i, e0, 1);
            lemma_at_index(s, i, e0, 2);
            lemma_at_index(s, i, e0, 3);
            lemma_at_index(s, i, e0, 4);
            lemma_at_index(s, i, e0, 5);
            assert(s[i] == BACKSLASH && s[i + 1] == 117 && s[i + 2] == 48 && s[i + 3] == 48);
            assert(s[i + 4] == hex_digit(b / 16) && s[i + 5] == hex_digit(b % 16));
            assert(hex_val(s[i + 2]) == 0 && hex_val(s[i + 3]) == 0);
            assert(hex_val(hex_digit(b / 16)) == b / 16);
            assert(hex_val(hex_digit(b % 16)) == b % 16);
            vstd::arithmetic::div_mod::lemma_fundamental_div_mod(b as int, 16);
            assert(hex_val(s[i + 2]) * 4096 + hex_val(s[i + 3]) * 256 + hex_val(s[i + 4]) * 16
                + hex_val(s[i + 5]) == b);
            assert(sp_str_body(s, i) == prepend(b, sp_str_body(s, i + 6)));
        } else {
            lemma_at_index(s, i, e0, 0);
            assert(sp_str_body(s, i) == prepend(b, sp_str_body(s, i + 1)));
        }
    }
}

proof fn lemma_dec_digits_are_digits(n: int)
    requires
        n >= 0,
    ensures
        dec_digits(n).len() >= 1,
        forall|k: int| 0 <= k < dec_digits(n).len() ==> is_digit(#[trigger] dec_digits(n)[k]),
    decreases n,
{
    if n >= 10 {
        lemma_dec_digits_are_digits(n / 10);
        assert forall|k: int| 0 <= k < dec_digits(n).len() implies is_digit(
            #[trigger] dec_digits(n)[k],
        ) by {
            if k < dec_digits(n / 10).len() {
                assert(dec_digits(n)[k] == dec_digits(n / 10)[k]);
            } else {
                assert(dec_digits(n)[k] == (48 + n % 10) as u8);
            }
        }
    }
}

proof fn lemma_dec_digits_val(n: int)
    requires
        n >= 0,
    ensures
        digits_val(dec_digits(n)) == n,
    decreases n,
{
    assert(dec_digits(n).len() >= 1) by {
        lemma_dec_digits_are_digits(n);
    }
    assert(digits_val(dec_digits(n)) == digits_val(dec_digits(n).drop_last()) * 10 + (dec_digits(
        n,
    ).last() - 48));
    if n < 10 {
        assert(dec_digits(n) =~= seq![(48 + n) as u8]);
        assert(dec_digits(n).drop_last() =~= Seq::<u8>::empty());
        assert(digits_val(Seq::<u8>::empty()) == 0);
        assert(dec_digits(n).last() == (48 + n) as u8);
    } else {
        lemma_dec_digits_val(n / 10);
        assert(dec_digits(n) == dec_digits(n / 10) + seq![(48 + n % 10) as u8]);
        assert(dec_digits(n).drop_last() =~= dec_digits(n / 10));
        assert(dec_digits(n).last() == (48 + n % 10) as u8);
        vstd::arithmetic::div_mod::lemma_fundamental_div_mod(n, 10);
    }
}

proof fn lemma_dec_digits_first(n: int)
    requires
        n >= 0,
        dec_digits(n)[0] == 48,
    ensures
        n < 10,
    decreases n,
{
    if n >= 10 {
        lemma_dec_digits_are_digits(n / 10);
        assert(dec_digits(n)[0] == dec_digits(n / 10)[0]);
        lemma_dec_digits_first(n / 10);
        assert(dec_digits(n / 10) =~= seq![(48 + n / 10) as u8]);
        assert(n / 10 == 0);
        vstd::arithmetic::div_mod::lemma_fundamental_div_mod(n, 10);
    }
}

proof fn lemma_digits_end_run(s: Seq<u8>, i: int, e: int)
    requires
        0 <= i <= e <= s.len(),
        forall|k: int| i <= k < e ==> is_digit(s[k]),
        e == s.len() || !is_digit(s[e]),
    ensures
        digits_end(s, i) == e,
    decreases e - i,
{
    if i < e {
        lemma_digits_end_run(s, i + 1, e);
    }
}

/// Reading a number over the decimal digits of `n`, with a non-digit after
/// them, gives `n` back.
proof fn lemma_sp_u64_of_dec(s: Seq<u8>, i: int, n: int)
    requires
        0 <= n <= 0xFFFF_FFFF_FFFF_FFFF,
        at(s, i, dec_digits(n)),
        i + dec_digits(n).len() < s.len(),
        !is_digit(s[i + dec_digits(n).len()]),
    ensures
        sp_u64(s, i) == Some((n, i + dec_digits(n).len())),
{
    let d = dec_digits(n);
    let e = i + d.len();
    lemma_dec_digits_are_digits(n);
    assert forall|k: int| i <= k < e implies is_digit(s[k]) by {
        lemma_at_index(s, i, d, k - i);
    }
    lemma_digits_end_run(s, i, e);
    assert(s.subrange(i, e) == d);
    lemma_dec_digits_val(n);
    lemma_at_index(s, i, d, 0);
    if s[i] == 48 && e > i + 1 {
        lemma_dec_digits_first(n);
        assert(d =~= seq![(48 + n) as u8]);
        assert(false);
    }
}

/// Every role name is plain and reads back as its role.
proof fn lemma_role_name_facts(r: Role)
    ensures
        escape_bytes(role_name_bytes(r)) == role_name_bytes(r),
        role_of_name(role_name_bytes(r)) == Some(r),
        forall|k: int| 0 <= k < role_name_bytes(r).len() ==> 32 <= #[trigger] role_name_bytes(
            r,
        )[k] && role_name_bytes(r)[k] != QUOTE && role_name_bytes(r)[k] != BACKSLASH,
{
    let admin = role_name_bytes(Role::Admin);
    let user = role_name_bytes(Role::User);
    let guest = role_name_bytes(Role::Guest);
    assert(admin.len() == 5 && user.len() == 4 && guest.len() == 5);
    assert(admin[0] == 65 && guest[0] == 71);
    assert(admin != user && admin != guest && user != guest);
    let t = role_name_bytes(r);
    assert forall|k: int| 0 <= k < t.len() implies 32 <= #[trigger] t[k] && t[k] != QUOTE
        && t[k] != BACKSLASH by {
        match r {
            Role::Admin => {
                assert(t[0] == 65 && t[1] == 100 && t[2] == 109 && t[3] == 105 && t[4] == 110);
            },
            Role::User => {
                assert(t[0] == 85 && t[1] == 115 && t[2] == 101 && t[3] == 114);
            },
            Role::Guest => {
                assert(t[0] == 71 && t[1] == 117 && t[2] == 101 && t[3] == 115 && t[4] == 116);
            },
        }
    }
    lemma_escape_plain(t);
}

/// What follows the separator before the next element of a roles array.
pub open spec fn roles_tail(roles: Seq<Role>) -> Seq<u8> {
    if roles.len() == 0 {
        seq![RBRACK]
    } else {
        quoted(role_name_bytes(roles[0])) + roles_json_rest(roles.skip(1))
    }
}

proof fn lemma_sp_roles_tail(s: Seq<u8>, sep: int, roles: Seq<Role>)
    requires
        0 <= sep < s.len(),
        at(s, sep + 1, roles_tail(roles)),
    ensures
        sp_roles_rest(s, sep) == Some((roles, sep + 1 + roles_tail(roles).len())),
    decreases roles.len(),
{
    if roles.len() == 0 {
        lemma_at_index(s, sep + 1, roles_tail(roles), 0);
        assert(s[sep + 1] == RBRACK);
    } else {
        let r0 = roles[0];
        let name = role_name_bytes(r0);
        let q = quoted(name);
        let rest = roles_json_rest(roles.skip(1));
        lemma_role_name_facts(r0);
        lemma_at_concat(s, sep + 1, q, rest);
        assert(q =~= seq![QUOTE] + name + seq![QUOTE]);
        lemma_at_concat(s, sep + 1, seq![QUOTE] + name, seq![QUOTE]);
        lemma_at_concat(s, sep + 1, seq![QUOTE], name);
        lemma_at_index(s, sep + 1, seq![QUOTE], 0);
        assert(s[sep + 1] == QUOTE);
        let close = sep + 2 + name.len();
        lemma_at_index(s, close, seq![QUOTE], 0);
        assert(s[close] == QUOTE);
        assert(at(s, sep + 2, escape_bytes(name)));
        lemma_str_body_of_escape(s, sep + 2, name);
        assert(sp_str_body(s, sep + 2) == Some((name, close + 1)));
        assert(sp_string(s, sep + 1) == Some((name, close + 1)));
        let j = close + 1;
        if roles.skip(1).len() == 0 {
            assert(rest =~= seq![RBRACK]);
            lemma_at_index(s, sep + 1 + q.len(), rest, 0);
            assert(s[j] == RBRACK);
            assert(j < s.len());
            assert(sp_roles_rest(s, sep) == Some((seq![r0], j + 1)));
            assert(seq![r0] =~= roles);
        } else {
            assert(rest == seq![COMMA] + roles_tail(roles.skip(1)));
            lemma_at_concat(s, sep + 1 + q.len(), seq![COMMA], roles_tail(roles.skip(1)));
            lemma_at_index(s, j, seq![COMMA], 0);
            assert(s[j] == COMMA);
            lemma_sp_roles_tail(s, j, roles.skip(1));
            assert(sp_roles_rest(s, sep) == prepend_role(r0, sp_roles_rest(s, j)));
            assert(seq![r0] + roles.skip(1) =~= roles);
        }
    }
}

/// Reading the roles array over its written form gives the roles back.
proof fn lemma_sp_roles_of_json(s: Seq<u8>, i: int, roles: Seq<Role>)
    requires
        at(s, i, roles_json(roles)),
    ensures
        sp_roles(s, i) == Some((roles, i + roles_json(roles).len())),
{
    assert(roles_json(roles) == seq![LBRACK] + roles_tail(roles)) by {
        if roles.len() == 0 {
            assert(roles_json(roles) =~= seq![LBRACK] + roles_tail(roles));
        }
    }
    lemma_at_concat(s, i, seq![LBRACK], roles_tail(roles));
    lemma_at_index(s, i, seq![LBRACK], 0);
    assert(s[i] == LBRACK);
    lemma_sp_roles_tail(s, i, roles);
}


proof fn lemma_key_facts()
    ensures
        escape_bytes(key_sub()) == key_sub(),
        escape_bytes(key_exp()) == key_exp(),
        escape_bytes(key_roles()) == key_roles(),
        key_exp() != key_sub(),
        key_roles() != key_sub(),
        key_roles() != key_exp(),
{
    let ks = key_sub();
    let ke = key_exp();
    let kr = key_roles();
    assert(ks[0] == 115 && ks[1] == 117 && ks[2] == 98);
    assert(ke[0] == 101 && ke[1] == 120 && ke[2] == 112);
    assert(kr[0] == 114 && kr[1] == 111 && kr[2] == 108 && kr[3] == 101 && kr[4] == 115);
    assert forall|k: int| 0 <= k < ks.len() implies 32 <= ks[k] && ks[k] != QUOTE && ks[k]
        != BACKSLASH by {}
    assert forall|k: int| 0 <= k < ke.len() implies 32 <= ke[k] && ke[k] != QUOTE && ke[k]
        != BACKSLASH by {}
    assert forall|k: int| 0 <= k < kr.len() implies 32 <= kr[k] && kr[k] != QUOTE && kr[k]
        != BACKSLASH by {}
    lemma_escape_plain(ks);
    lemma_escape_plain(ke);
    lemma_escape_plain(kr);
}

/// Where each piece of the canonical payload stands, and what reading each
/// piece gives. Positions are written out from the fixed fragment lengths:
/// the head is 8 bytes, the two middle fragments 8 and 9, the closing brace 1.
#[verifier::rlimit(100)]
proof fn lemma_claims_fragments(sub: Seq<u8>, exp: int, roles: Seq<Role>)
    requires
        0 <= exp <= 0xFFFF_FFFF_FFFF_FFFF,
    ensures
        claims_json(sub, exp, roles).len() == 26 + escape_bytes(sub).len() + dec_digits(
            exp,
        ).len() + roles_json(roles).len(),
        claims_json(sub, exp, roles)[0] == LBRACE,
        sp_string(claims_json(sub, exp, roles), 1) == Some((key_sub(), 6int)),
        claims_json(sub, exp, roles)[6] == COLON,
        sp_string(claims_json(sub, exp, roles), 7) == Some(
            (sub, 9 + escape_bytes(sub).len() as int),
        ),
        claims_json(sub, exp, roles)[9 + escape_bytes(sub).len() as int] == COMMA,
        sp_string(claims_json(sub, exp, roles), 10 + escape_bytes(sub).len() as int) == Some(
            (key_exp(), 15 + escape_bytes(sub).len() as int),
        ),
        claims_json(sub, exp, roles)[15 + escape_bytes(sub).len() as int] == COLON,
        sp_u64(claims_json(sub, exp, roles), 16 + escape_bytes(sub).len() as int) == Some(
            (exp, 16 + escape_bytes(sub).len() + dec_digits(exp).len() as int),
        ),
        claims_json(sub, exp, roles)[16 + escape_bytes(sub).len() + dec_digits(exp).len() as int]
            == COMMA,
        sp_string(
            claims_json(sub, exp, roles),
            17 + escape_bytes(sub).len() + dec_digits(exp).len() as int,
        ) == Some((key_roles(), 24 + escape_bytes(sub).len() + dec_digits(exp).len() as int)),
        claims_json(sub, exp, roles)[24 + escape_bytes(sub).len() + dec_digits(exp).len() as int]
            == COLON,
        sp_roles(
            claims_json(sub, exp, roles),
            25 + escape_bytes(sub).len() + dec_digits(exp).len() as int,
        ) == Some(
            (
                roles,
                25 + escape_bytes(sub).len() + dec_digits(exp).len() + roles_json(
                    roles,
                ).len() as int,
            ),
        ),
        claims_json(sub, exp, roles)[25 + escape_bytes(sub).len() + dec_digits(exp).len()
            + roles_json(roles).len() as int] == RBRACE,
{
    lemma_key_facts();
    let s = claims_json(sub, exp, roles);
    let f1 = lit_head();
    let f2 = escape_bytes(sub);
    let f3 = lit_exp();
    let f4 = dec_digits(exp);
    let f5 = lit_roles();
    let f6 = roles_json(roles);
    let f7 = seq![RBRACE];
    assert(s == f1 + f2 + f3 + f4 + f5 + f6 + f7);
    let p3 = 8 + f2.len() as int;
    let p4 = p3 + 8;
    let p5 = p4 + f4.len() as int;
    let p6 = p5 + 9;
    let p7 = p6 + f6.len() as int;
    assert(s.len() == p7 + 1);
    assert(at(s, 0, s)) by {
        assert(s.subrange(0, s.len() as int) =~= s);
    }
    lemma_at_concat(s, 0, f1 + f2 + f3 + f4 + f5 + f6, f7);
    lemma_at_concat(s, 0, f1 + f2 + f3 + f4 + f5, f6);
    lemma_at_concat(s, 0, f1 + f2 + f3 + f4, f5);
    lemma_at_concat(s, 0, f1 + f2 + f3, f4);
    lemma_at_concat(s, 0, f1 + f2, f3);
    lemma_at_concat(s, 0, f1, f2);
    assert(at(s, 0, f1) && at(s, 8, f2) && at(s, p3, f3) && at(s, p4, f4) && at(s, p5, f5) && at(
        s,
        p6,
        f6,
    ) && at(s, p7, f7));
    // the fixed fragments, piece by piece
    assert(f1 == (seq![LBRACE, QUOTE] + key_sub()) + seq![QUOTE, COLON, QUOTE]) by {
        assert(f1 =~= (seq![LBRACE, QUOTE] + key_sub()) + seq![QUOTE, COLON, QUOTE]);
    }
    lemma_at_concat(s, 0, seq![LBRACE, QUOTE] + key_sub(), seq![QUOTE, COLON, QUOTE]);
    lemma_at_concat(s, 0, seq![LBRACE, QUOTE], key_sub());
    lemma_at_index(s, 0, seq![LBRACE, QUOTE], 0);
    lemma_at_index(s, 0, seq![LBRACE, QUOTE], 1);
    lemma_at_index(s, 5, seq![QUOTE, COLON, QUOTE], 0);
    lemma_at_index(s, 5, seq![QUOTE, COLON, QUOTE], 1);
    lemma_at_index(s, 5, seq![QUOTE, COLON, QUOTE], 2);
    assert(s[0] == LBRACE && s[1] == QUOTE && s[5] == QUOTE && s[6] == COLON && s[7] == QUOTE);
    assert(f3 == (seq![QUOTE, COMMA, QUOTE] + key_exp()) + seq![QUOTE, COLON]) by {
        assert(f3 =~= (seq![QUOTE, COMMA, QUOTE] + key_exp()) + seq![QUOTE, COLON]);
    }
    lemma_at_concat(s, p3, seq![QUOTE, COMMA, QUOTE] + key_exp(), seq![QUOTE, COLON]);
    lemma_at_concat(s, p3, seq![QUOTE, COMMA, QUOTE], key_exp());
    lemma_at_index(s, p3, seq![QUOTE, COMMA, QUOTE], 0);
    lemma_at_index(s, p3, seq![QUOTE, COMMA, QUOTE], 1);
    lemma_at_index(s, p3, seq![QUOTE, COMMA, QUOTE], 2);
    lemma_at_index(s, p3 + 6, seq![QUOTE, COLON], 0);
    lemma_at_index(s, p3 + 6, seq![QUOTE, COLON], 1);
    assert(s[p3] == QUOTE && s[p3 + 1] == COMMA && s[p3 + 2] == QUOTE && s[p3 + 6] == QUOTE
        && s[p3 + 7] == COLON);
    assert(f5 == (seq![COMMA, QUOTE] + key_roles()) + seq![QUOTE, COLON]) by {
        assert(f5 =~= (seq![COMMA, QUOTE] + key_roles()) + seq![QUOTE, COLON]);
    }
    lemma_at_concat(s, p5, seq![COMMA, QUOTE] + key_roles(), seq![QUOTE, COLON]);
    lemma_at_concat(s, p5, seq![COMMA, QUOTE], key_roles());
    lemma_at_index(s, p5, seq![COMMA, QUOTE], 0);
    lemma_at_index(s, p5, seq![COMMA, QUOTE], 1);
    lemma_at_index(s, p5 + 7, seq![QUOTE, COLON], 0);
    lemma_at_index(s, p5 + 7, seq![QUOTE, COLON], 1);
    assert(s[p5] == COMMA && s[p5 + 1] == QUOTE && s[p5 + 7] == QUOTE && s[p5 + 8] == COLON);
    lemma_at_index(s, p7, f7, 0);
    assert(s[p7] == RBRACE);
    // the three keys read back
    lemma_str_body_of_escape(s, 2, key_sub());
    assert(sp_string(s, 1) == Some((key_sub(), 6int)));
    lemma_str_body_of_escape(s, p3 + 3, key_exp());
    assert(sp_string(s, p3 + 2) == Some((key_exp(), p3 + 7)));
    lemma_str_body_of_escape(s, p5 + 2, key_roles());
    assert(sp_string(s, p5 + 1) == Some((key_roles(), p5 + 8)));
    // the three values read back
    lemma_str_body_of_escape(s, 8, sub);
    assert(sp_string(s, 7) == Some((sub, p3 + 1)));
    lemma_sp_u64_of_dec(s, p4, exp);
    assert(sp_u64(s, p4) == Some((exp, p5)));
    lemma_sp_roles_of_json(s, p6, roles);
    assert(sp_roles(s, p6) == Some((roles, p7)));
}

/// Reading the canonical payload of a subject, expiry and role sequence
/// gives exactly them back.
#[verifier::rlimit(100)]
pub proof fn lemma_claims_round_trip(sub: Seq<u8>, exp: int, roles: Seq<Role>)
    requires
        0 <= exp <= 0xFFFF_FFFF_FFFF_FFFF,
    ensures
        sp_claims(claims_json(sub, exp, roles)) == Some((sub, exp, roles)),
{
    lemma_claims_fragments(sub, exp, roles);
    lemma_key_facts();
    let s = claims_json(sub, exp, roles);
    let p3 = 8 + escape_bytes(sub).len() as int;
    let p4 = p3 + 8;
    let p5 = p4 + dec_digits(exp).len() as int;
    let p6 = p5 + 9;
    let p7 = p6 + roles_json(roles).len() as int;
    // the member walk, last round first
    assert(sp_claims_member_value(s, p5 + 8, key_roles(), Some(sub), Some(exp), None::<Seq<Role>>)
        == Some(((Some(sub), Some(exp), Some(roles)), p7)));
    assert(sp_claims_members(s, p5, Some(sub), Some(exp), None::<Seq<Role>>) == Some(
        ((Some(sub), Some(exp), Some(roles)), p7 + 1),
    ));
    assert(sp_claims_member_value(s, p3 + 7, key_exp(), Some(sub), None::<int>, None::<Seq<Role>>)
        == Some(((Some(sub), Some(exp), None::<Seq<Role>>), p5)));
    assert(sp_claims_members(s, p3 + 1, Some(sub), None::<int>, None::<Seq<Role>>) == Some(
        ((Some(sub), Some(exp), Some(roles)), p7 + 1),
    ));
    assert(sp_claims_member_value(
        s,
        6,
        key_sub(),
        None::<Seq<u8>>,
        None::<int>,
        None::<Seq<Role>>,
    ) == Some(((Some(sub), None::<int>, None::<Seq<Role>>), p3 + 1)));
    assert(sp_claims_members(s, 0, None::<Seq<u8>>, None::<int>, None::<Seq<Role>>) == Some(
        ((Some(sub), Some(exp), Some(roles)), p7 + 1),
    ));
    assert(sp_claims(s) == Some((sub, exp, roles)));
}

} // verus!
