//! The protocol codec: the tagged message envelope serialized as
//! JSON-shaped structured text.
//!
//! The wire form is exactly `{"action":{"<tag>":<payload>}}` with the two
//! tags `SetSelectedLevel` (payload `null` or a quoted level name) and
//! `LevelListInit` (payload an array of quoted level names). Quotes and
//! backslashes inside level names are backslash-escaped; every other
//! character stands for itself. Decoding accepts exactly the encoder's
//! output: anything else, an unknown tag in particular, is rejected with
//! `None`, never mapped to a default variant.

use vstd::prelude::*;
use vstd::string::*;
use crate::types::{ActionModel, MessageModel, SocketAction, SocketMessage};

verus! {

/// The envelope opening, `{"action":{"`.
pub open spec fn lit_prefix() -> Seq<char> {
    seq!['{', '"', 'a', 'c', 't', 'i', 'o', 'n', '"', ':', '{', '"']
}

/// The selection tag with its closing quote and colon, `SetSelectedLevel":`.
pub open spec fn lit_set_tag() -> Seq<char> {
    seq!['S', 'e', 't', 'S', 'e', 'l', 'e', 'c', 't', 'e', 'd', 'L', 'e', 'v', 'e', 'l', '"', ':']
}

/// The snapshot tag with its closing quote and colon, `LevelListInit":`.
pub open spec fn lit_init_tag() -> Seq<char> {
    seq!['L', 'e', 'v', 'e', 'l', 'L', 'i', 's', 't', 'I', 'n', 'i', 't', '"', ':']
}

/// The absent selection, `null`.
pub open spec fn lit_null() -> Seq<char> {
    seq!['n', 'u', 'l', 'l']
}

/// One level-name character on the wire: quotes and backslashes get a
/// backslash escape, everything else stands for itself.
pub open spec fn esc_char(c: char) -> Seq<char> {
    if c == '"' || c == '\\' {
        seq!['\\', c]
    } else {
        seq![c]
    }
}

/// A level name's characters on the wire, without the surrounding quotes.
pub open spec fn escape_name(name: Seq<char>) -> Seq<char>
    decreases name.len(),
{
    if name.len() == 0 {
        Seq::empty()
    } else {
        esc_char(name[0]) + escape_name(name.skip(1))
    }
}

/// A quoted, escaped level name.
pub open spec fn enc_quoted(name: Seq<char>) -> Seq<char> {
    seq!['"'] + escape_name(name) + seq!['"']
}

/// The selection payload: `null` or a quoted name.
pub open spec fn enc_selection(level: Option<Seq<char>>) -> Seq<char> {
    match level {
        None => lit_null(),
        Some(name) => enc_quoted(name),
    }
}

/// The second and later array elements, each preceded by a comma.
pub open spec fn enc_rest(levels: Seq<Seq<char>>) -> Seq<char>
    decreases levels.len(),
{
    if levels.len() == 0 {
        Seq::empty()
    } else {
        seq![','] + enc_quoted(levels[0]) + enc_rest(levels.skip(1))
    }
}

/// The comma-separated array elements, without the surrounding brackets.
pub open spec fn enc_items(levels: Seq<Seq<char>>) -> Seq<char> {
    if levels.len() == 0 {
        Seq::empty()
    } else {
        enc_quoted(levels[0]) + enc_rest(levels.skip(1))
    }
}

/// The level-list payload: a bracketed array of quoted names.
pub open spec fn enc_level_list(levels: Seq<Seq<char>>) -> Seq<char> {
    seq!['['] + enc_items(levels) + seq![']']
}

/// The whole envelope for a message value: this is the wire format.
pub open spec fn encode_spec(m: MessageModel) -> Seq<char> {
    lit_prefix() + (match m.action {
        ActionModel::SetSelectedLevel(level) => lit_set_tag() + enc_selection(level),
        ActionModel::LevelListInit(levels) => lit_init_tag() + enc_level_list(levels),
    }) + seq!['}', '}']
}

/// Escaping one more trailing character appends that character's escape.
pub proof fn lemma_escape_snoc(name: Seq<char>, c: char)
    ensures
        escape_name(name.push(c)) == escape_name(name) + esc_char(c),
    decreases name.len(),
{
    if name.len() == 0 {
        assert(name.push(c)[0] == c);
        assert(name.push(c).skip(1) =~= Seq::<char>::empty());
        assert(escape_name(name.push(c)) == esc_char(c) + escape_name(Seq::<char>::empty()));
        assert(escape_name(name.push(c)) =~= escape_name(name) + esc_char(c));
    } else {
        assert(name.push(c).skip(1) =~= name.skip(1).push(c));
        lemma_escape_snoc(name.skip(1), c);
        assert(escape_name(name.push(c)) =~= escape_name(name) + esc_char(c));
    }
}

/// Encoding one more trailing array element appends its comma-prefixed form.
pub proof fn lemma_enc_rest_snoc(levels: Seq<Seq<char>>, x: Seq<char>)
    ensures
        enc_rest(levels.push(x)) == enc_rest(levels) + seq![','] + enc_quoted(x),
    decreases levels.len(),
{
    if levels.len() == 0 {
        assert(levels.push(x)[0] == x);
        assert(levels.push(x).skip(1) =~= Seq::<Seq<char>>::empty());
        assert(enc_rest(levels.push(x)) == seq![','] + enc_quoted(x) + enc_rest(
            Seq::<Seq<char>>::empty(),
        ));
        assert(enc_rest(levels.push(x)) =~= enc_rest(levels) + seq![','] + enc_quoted(x));
    } else {
        assert(levels.push(x).skip(1) =~= levels.skip(1).push(x));
        lemma_enc_rest_snoc(levels.skip(1), x);
        assert(enc_rest(levels.push(x)) =~= enc_rest(levels) + seq![','] + enc_quoted(x));
    }
}

/// Same, for the whole element list: the first element comes bare, each
/// later one behind a comma.
pub proof fn lemma_enc_items_snoc(levels: Seq<Seq<char>>, x: Seq<char>)
    ensures
        enc_items(levels.push(x)) == enc_items(levels) + (if levels.len() == 0 {
            enc_quoted(x)
        } else {
            seq![','] + enc_quoted(x)
        }),
{
    if levels.len() == 0 {
        assert(levels.push(x)[0] == x);
        assert(levels.push(x).skip(1) =~= Seq::<Seq<char>>::empty());
        assert(enc_items(levels.push(x)) =~= enc_items(levels) + enc_quoted(x));
    } else {
        assert(levels.push(x)[0] == levels[0]);
        assert(levels.push(x).skip(1) =~= levels.skip(1).push(x));
        lemma_enc_rest_snoc(levels.skip(1), x);
        assert(enc_items(levels.push(x)) =~= enc_items(levels) + seq![','] + enc_quoted(x));
    }
}

/// Relies on `String: FromIterator<char>`: collecting characters yields a
/// string whose characters are exactly the collected ones, in order.
#[verifier::external_body]
pub(crate) fn string_from_chars(v: Vec<char>) -> (r: String)
    ensures
        r@ == v@,
{
    String::from_iter(v)
}

/// The characters of a string, in order.
pub fn str_chars(s: &str) -> (r: Vec<char>)
    ensures
        r@ == s@,
{
    let n = s.unicode_len();
    let mut out: Vec<char> = Vec::new();
    let mut i: usize = 0;
    while i < n
        invariant
            i <= n,
            n == s@.len(),
            out@ =~= s@.take(i as int),
        decreases n - i,
    {
        out.push(s.get_char(i));
        i += 1;
        assert(out@ =~= s@.take(i as int));
    }
    assert(out@ =~= s@);
    out
}

/// Appends a level name's escaped wire characters.
fn push_escaped(out: &mut Vec<char>, name: &str)
    ensures
        final(out)@ == old(out)@ + escape_name(name@),
{
    let n = name.unicode_len();
    let mut i: usize = 0;
    while i < n
        invariant
            i <= n,
            n == name@.len(),
            out@ == old(out)@ + escape_name(name@.take(i as int)),
        decreases n - i,
    {
        let c = name.get_char(i);
        if c == '"' || c == '\\' {
            out.push('\\');
            out.push(c);
        } else {
            out.push(c);
        }
        proof {
            lemma_escape_snoc(name@.take(i as int), name@[i as int]);
            assert(name@.take(i as int).push(name@[i as int]) =~= name@.take(i as int + 1));
            assert(out@ =~= old(out)@ + escape_name(name@.take(i as int + 1)));
        }
        i += 1;
    }
    proof {
        assert(name@.take(n as int) =~= name@);
    }
}

/// Appends a quoted, escaped level name.
fn push_quoted(out: &mut Vec<char>, name: &str)
    ensures
        final(out)@ == old(out)@ + enc_quoted(name@),
{
    out.push('"');
    push_escaped(out, name);
    out.push('"');
    assert(out@ =~= old(out)@ + enc_quoted(name@));
}

/// Encodes a message into its wire form. Serialization is total: every
/// message value has exactly the wire form [`encode_spec`] gives it.
pub fn encode_message(m: &SocketMessage) -> (r: String)
    ensures
        r@ == encode_spec(m@),
{
    let mut out: Vec<char> = Vec::new();
    out.push('{');
    out.push('"');
    out.push('a');
    out.push('c');
    out.push('t');
    out.push('i');
    out.push('o');
    out.push('n');
    out.push('"');
    out.push(':');
    out.push('{');
    out.push('"');
    assert(out@ =~= lit_prefix());
    match &m.action {
        SocketAction::SetSelectedLevel(level) => {
            out.push('S');
            out.push('e');
            out.push('t');
            out.push('S');
            out.push('e');
            out.push('l');
            out.push('e');
            out.push('c');
            out.push('t');
            out.push('e');
            out.push('d');
            out.push('L');
            out.push('e');
            out.push('v');
            out.push('e');
            out.push('l');
            out.push('"');
            out.push(':');
            assert(out@ =~= lit_prefix() + lit_set_tag());
            match level {
                Some(name) => {
                    push_quoted(&mut out, name.as_str());
                }
                None => {
                    out.push('n');
                    out.push('u');
                    out.push('l');
                    out.push('l');
                }
            }
            assert(out@ =~= lit_prefix() + lit_set_tag() + enc_selection(
                level.deep_view(),
            ));
        }
        SocketAction::LevelListInit(levels) => {
            out.push('L');
            out.push('e');
            out.push('v');
            out.push('e');
            out.push('l');
            out.push('L');
            out.push('i');
            out.push('s');
            out.push('t');
            out.push('I');
            out.push('n');
            out.push('i');
            out.push('t');
            out.push('"');
            out.push(':');
            out.push('[');
            assert(out@ =~= lit_prefix() + lit_init_tag() + seq!['[']);
            let ghost base = out@;
            let mut i: usize = 0;
            while i < levels.len()
                invariant
                    i <= levels.len(),
                    out@ == base + enc_items(levels.deep_view().take(i as int)),
                    levels.deep_view().len() == levels@.len(),
                decreases levels.len() - i,
            {
                if i > 0 {
                    out.push(',');
                }
                push_quoted(&mut out, levels[i].as_str());
                proof {
                    let dv = levels.deep_view();
                    lemma_enc_items_snoc(dv.take(i as int), dv[i as int]);
                    assert(dv.take(i as int).push(dv[i as int]) =~= dv.take(i as int + 1));
                    assert(out@ =~= base + enc_items(dv.take(i as int + 1)));
                }
                i += 1;
            }
            out.push(']');
            proof {
                assert(levels.deep_view().take(levels@.len() as int) =~= levels.deep_view());
                assert(out@ =~= lit_prefix() + lit_init_tag() + enc_level_list(
                    levels.deep_view(),
                ));
            }
        }
    }
    out.push('}');
    out.push('}');
    assert(out@ =~= encode_spec(m@));
    string_from_chars(out)
}

/// A literal stands in `s` at position `at`.
pub open spec fn starts_with_at(s: Seq<char>, lit: Seq<char>, at: int) -> bool {
    0 <= at && at + lit.len() <= s.len() && s.subrange(at, at + lit.len()) == lit
}

/// The envelope's two closing braces stand at `i`, and nothing follows.
pub open spec fn closes_at(s: Seq<char>, i: int) -> bool {
    0 <= i && i + 2 == s.len() && s[i] == '}' && s[i + 1] == '}'
}

/// Parses a level name from position `i` (just past the opening quote) up
/// to its closing quote: backslash escapes for quote and backslash, every
/// other character literal. Yields the name read so far appended to `acc`,
/// and the position just past the closing quote.
pub open spec fn parse_name(s: Seq<char>, i: int, acc: Seq<char>) -> Option<(Seq<char>, int)>
    decreases s.len() - i,
{
    if i < 0 || i >= s.len() {
        None
    } else if s[i] == '"' {
        Some((acc, i + 1))
    } else if s[i] == '\\' {
        if i + 1 < s.len() && (s[i + 1] == '"' || s[i + 1] == '\\') {
            parse_name(s, i + 2, acc.push(s[i + 1]))
        } else {
            None
        }
    } else {
        parse_name(s, i + 1, acc.push(s[i]))
    }
}

/// A parsed name ends strictly past where it began and inside the input.
pub proof fn lemma_parse_name_bounds(s: Seq<char>, i: int, acc: Seq<char>)
    ensures
        match parse_name(s, i, acc) {
            Some(r) => i < r.1 && r.1 <= s.len(),
            None => true,
        },
    decreases s.len() - i,
{
    if i < 0 || i >= s.len() {
    } else if s[i] == '"' {
    } else if s[i] == '\\' {
        if i + 1 < s.len() && (s[i + 1] == '"' || s[i + 1] == '\\') {
            lemma_parse_name_bounds(s, i + 2, acc.push(s[i + 1]));
        }
    } else {
        lemma_parse_name_bounds(s, i + 1, acc.push(s[i]));
    }
}

/// Parses the elements of the level-list array from position `i` (just
/// past the opening bracket when `first`, just past an element's closing
/// quote otherwise) up to the closing bracket. Yields the names read so
/// far appended to `acc`, and the position just past the bracket.
pub open spec fn parse_levels(s: Seq<char>, i: int, acc: Seq<Seq<char>>, first: bool) -> Option<
    (Seq<Seq<char>>, int),
>
    decreases s.len() - i,
{
    if i < 0 || i >= s.len() {
        None
    } else if s[i] == ']' {
        Some((acc, i + 1))
    } else if first && s[i] == '"' {
        match parse_name(s, i + 1, Seq::empty()) {
            Some(r) => {
                proof {
                    lemma_parse_name_bounds(s, i + 1, Seq::empty());
                }
                parse_levels(s, r.1, acc.push(r.0), false)
            },
            None => None,
        }
    } else if !first && s[i] == ',' && i + 1 < s.len() && s[i + 1] == '"' {
        match parse_name(s, i + 2, Seq::empty()) {
            Some(r) => {
                proof {
                    lemma_parse_name_bounds(s, i + 2, Seq::empty());
                }
                parse_levels(s, r.1, acc.push(r.0), false)
            },
            None => None,
        }
    } else {
        None
    }
}

/// The `SetSelectedLevel` payload and the envelope's close, from `i`.
pub open spec fn decode_selection(s: Seq<char>, i: int) -> Option<MessageModel> {
    if starts_with_at(s, lit_null(), i) {
        if closes_at(s, i + 4) {
            Some(MessageModel { action: ActionModel::SetSelectedLevel(None) })
        } else {
            None
        }
    } else if 0 <= i && i < s.len() && s[i] == '"' {
        match parse_name(s, i + 1, Seq::empty()) {
            Some(r) => if closes_at(s, r.1) {
                Some(MessageModel { action: ActionModel::SetSelectedLevel(Some(r.0)) })
            } else {
                None
            },
            None => None,
        }
    } else {
        None
    }
}

/// The `LevelListInit` payload and the envelope's close, from `i`.
pub open spec fn decode_level_list(s: Seq<char>, i: int) -> Option<MessageModel> {
    if 0 <= i && i < s.len() && s[i] == '[' {
        match parse_levels(s, i + 1, Seq::empty(), true) {
            Some(r) => if closes_at(s, r.1) {
                Some(MessageModel { action: ActionModel::LevelListInit(r.0) })
            } else {
                None
            },
            None => None,
        }
    } else {
        None
    }
}

/// What decoding accepts: exactly the encoder's output. An envelope whose
/// tag is neither of the two known ones is rejected, never guessed at.
pub open spec fn decode_spec(s: Seq<char>) -> Option<MessageModel> {
    if !starts_with_at(s, lit_prefix(), 0) {
        None
    } else if starts_with_at(s, lit_set_tag(), 12) {
        decode_selection(s, 12 + lit_set_tag().len() as int)
    } else if starts_with_at(s, lit_init_tag(), 12) {
        decode_level_list(s, 12 + lit_init_tag().len() as int)
    } else {
        None
    }
}

/// A decoded message always came in under one of the two known tags:
/// an unrecognized tag is rejected, never mapped to a default variant.
pub proof fn lemma_no_guessed_variant(s: Seq<char>)
    requires
        decode_spec(s) is Some,
    ensures
        starts_with_at(s, lit_prefix(), 0),
        starts_with_at(s, lit_set_tag(), 12) || starts_with_at(s, lit_init_tag(), 12),
{
}

/// The wire format is unambiguous: distinct message values never share an
/// encoding.
pub proof fn lemma_encode_injective(m1: MessageModel, m2: MessageModel)
    requires
        encode_spec(m1) == encode_spec(m2),
    ensures
        m1 == m2,
{
    lemma_round_trip(m1);
    lemma_round_trip(m2);
}

/// A literal stands in `v` at position `at`, checked character by
/// character.
pub(crate) fn starts_with_vec(v: &Vec<char>, lit: &Vec<char>, at: usize) -> (r: bool)
    ensures
        r == starts_with_at(v@, lit@, at as int),
{
    if at > v.len() || v.len() - at < lit.len() {
        return false;
    }
    let mut i: usize = 0;
    while i < lit.len()
        invariant
            at + lit@.len() <= v@.len(),
            v@.len() <= usize::MAX,
            i <= lit@.len(),
            forall|k: int| 0 <= k < i ==> v@[at + k] == lit@[k],
        decreases lit@.len() - i,
    {
        if v[at + i] != lit[i] {
            proof {
                assert(v@.subrange(at as int, at as int + lit@.len())[i as int] == v@[at + i]);
            }
            return false;
        }
        i += 1;
    }
    proof {
        assert(v@.subrange(at as int, at as int + lit@.len()) =~= lit@);
    }
    true
}

/// The envelope opening as characters.
fn lit_prefix_vec() -> (r: Vec<char>)
    ensures
        r@ == lit_prefix(),
{
    let mut out: Vec<char> = Vec::new();
    out.push('{');
    out.push('"');
    out.push('a');
    out.push('c');
    out.push('t');
    out.push('i');
    out.push('o');
    out.push('n');
    out.push('"');
    out.push(':');
    out.push('{');
    out.push('"');
    assert(out@ =~= lit_prefix());
    out
}

/// The selection tag as characters.
fn lit_set_tag_vec() -> (r: Vec<char>)
    ensures
        r@ == lit_set_tag(),
{
    let mut out: Vec<char> = Vec::new();
    out.push('S');
    out.push('e');
    out.push('t');
    out.push('S');
    out.push('e');
    out.push('l');
    out.push('e');
    out.push('c');
    out.push('t');
    out.push('e');
    out.push('d');
    out.push('L');
    out.push('e');
    out.push('v');
    out.push('e');
    out.push('l');
    out.push('"');
    out.push(':');
    assert(out@ =~= lit_set_tag());
    out
}

/// The snapshot tag as characters.
fn lit_init_tag_vec() -> (r: Vec<char>)
    ensures
        r@ == lit_init_tag(),
{
    let mut out: Vec<char> = Vec::new();
    out.push('L');
    out.push('e');
    out.push('v');
    out.push('e');
    out.push('l');
    out.push('L');
    out.push('i');
    out.push('s');
    out.push('t');
    out.push('I');
    out.push('n');
    out.push('i');
    out.push('t');
    out.push('"');
    out.push(':');
    assert(out@ =~= lit_init_tag());
    out
}

/// The absent selection as characters.
fn lit_null_vec() -> (r: Vec<char>)
    ensures
        r@ == lit_null(),
{
    let mut out: Vec<char> = Vec::new();
    out.push('n');
    out.push('u');
    out.push('l');
    out.push('l');
    assert(out@ =~= lit_null());
    out
}

/// The envelope's two closing braces stand at `i`, and nothing follows.
fn closes_at_exec(v: &Vec<char>, i: usize) -> (r: bool)
    ensures
        r == closes_at(v@, i as int),
{
    if v.len() < 2 || i != v.len() - 2 {
        return false;
    }
    v[i] == '}' && v[i + 1] == '}'
}

/// Runs [`parse_name`] on the input.
fn parse_name_exec(v: &Vec<char>, start: usize) -> (r: Option<(Vec<char>, usize)>)
    ensures
        match r {
            Some(p) => parse_name(v@, start as int, Seq::empty()) == Some((p.0@, p.1 as int))
                && p.1 <= v@.len(),
            None => parse_name(v@, start as int, Seq::empty()) is None,
        },
{
    let mut i: usize = start;
    let mut acc: Vec<char> = Vec::new();
    loop
        invariant
            parse_name(v@, start as int, Seq::empty()) == parse_name(v@, i as int, acc@),
        decreases v@.len() - i,
    {
        if i >= v.len() {
            return None;
        }
        let c = v[i];
        if c == '"' {
            return Some((acc, i + 1));
        }
        if c == '\\' {
            if i + 1 < v.len() {
                let d = v[i + 1];
                if d == '"' || d == '\\' {
                    acc.push(d);
                    i += 2;
                } else {
                    return None;
                }
            } else {
                return None;
            }
        } else {
            acc.push(c);
            i += 1;
        }
    }
}

/// Runs [`parse_levels`] on the input, yielding the names as strings.
fn parse_levels_exec(v: &Vec<char>, start: usize) -> (r: Option<(Vec<String>, usize)>)
    ensures
        match r {
            Some(p) => parse_levels(v@, start as int, Seq::empty(), true) == Some(
                (p.0.deep_view(), p.1 as int),
            ),
            None => parse_levels(v@, start as int, Seq::empty(), true) is None,
        },
{
    let mut i: usize = start;
    let mut acc: Vec<String> = Vec::new();
    let mut first = true;
    assert(acc.deep_view() =~= Seq::<Seq<char>>::empty());
    loop
        invariant
            parse_levels(v@, start as int, Seq::empty(), true) == parse_levels(
                v@,
                i as int,
                acc.deep_view(),
                first,
            ),
        decreases v@.len() - i,
    {
        if i >= v.len() {
            return None;
        }
        let c = v[i];
        if c == ']' {
            return Some((acc, i + 1));
        }
        if first {
            if c != '"' {
                return None;
            }
            match parse_name_exec(v, i + 1) {
                Some((name, j)) => {
                    proof {
                        lemma_parse_name_bounds(v@, i as int + 1, Seq::empty());
                    }
                    let ghost prev = acc.deep_view();
                    let ghost namev = name@;
                    acc.push(string_from_chars(name));
                    proof {
                        assert(acc.deep_view() =~= prev.push(namev));
                    }
                    i = j;
                    first = false;
                },
                None => {
                    return None;
                },
            }
        } else {
            if c != ',' || i + 1 >= v.len() {
                return None;
            }
            let d = v[i + 1];
            if d != '"' {
                return None;
            }
            match parse_name_exec(v, i + 2) {
                Some((name, j)) => {
                    proof {
                        lemma_parse_name_bounds(v@, i as int + 2, Seq::empty());
                    }
                    let ghost prev = acc.deep_view();
                    let ghost namev = name@;
                    acc.push(string_from_chars(name));
                    proof {
                        assert(acc.deep_view() =~= prev.push(namev));
                    }
                    i = j;
                },
                None => {
                    return None;
                },
            }
        }
    }
}

/// Decodes one inbound payload. Yields the message whose wire form the
/// input is, and rejects everything else — a malformed payload or an
/// unrecognized tag comes back as `None`, never as a guessed variant.
pub fn decode_message(s: &str) -> (r: Option<SocketMessage>)
    ensures
        match r {
            Some(m) => decode_spec(s@) == Some(m@),
            None => decode_spec(s@) is None,
        },
{
    let v = str_chars(s);
    let prefix = lit_prefix_vec();
    if !starts_with_vec(&v, &prefix, 0) {
        return None;
    }
    let set_tag = lit_set_tag_vec();
    if starts_with_vec(&v, &set_tag, 12) {
        let i = 12 + set_tag.len();
        let null_lit = lit_null_vec();
        if starts_with_vec(&v, &null_lit, i) {
            if closes_at_exec(&v, i + 4) {
                return Some(SocketMessage { action: SocketAction::SetSelectedLevel(None) });
            } else {
                return None;
            }
        }
        if i < v.len() && v[i] == '"' {
            match parse_name_exec(&v, i + 1) {
                Some((name, j)) => {
                    if closes_at_exec(&v, j) {
                        let level = string_from_chars(name);
                        return Some(
                            SocketMessage { action: SocketAction::SetSelectedLevel(Some(level)) },
                        );
                    } else {
                        return None;
                    }
                },
                None => {
                    return None;
                },
            }
        }
        return None;
    }
    let init_tag = lit_init_tag_vec();
    if starts_with_vec(&v, &init_tag, 12) {
        let i = 12 + init_tag.len();
        if i < v.len() && v[i] == '[' {
            match parse_levels_exec(&v, i + 1) {
                Some((levels, j)) => {
                    if closes_at_exec(&v, j) {
                        return Some(
                            SocketMessage { action: SocketAction::LevelListInit(levels) },
                        );
                    } else {
                        return None;
                    }
                },
                None => {
                    return None;
                },
            }
        }
        return None;
    }
    None
}

/// Parsing picks an escaped, quote-terminated name back out: where the
/// input from `i` reads `escape_name(name)` followed by a quote, the
/// parser yields exactly `name` and stops just past that quote.
pub proof fn lemma_parse_escaped(s: Seq<char>, i: int, name: Seq<char>, acc: Seq<char>)
    requires
        0 <= i,
        i + escape_name(name).len() + 1 <= s.len(),
        s.subrange(i, i + escape_name(name).len() + 1) == escape_name(name) + seq!['"'],
    ensures
        parse_name(s, i, acc) == Some((acc + name, i + escape_name(name).len() + 1)),
    decreases name.len(),
{
    let e = escape_name(name);
    let region = s.subrange(i, i + e.len() + 1);
    if name.len() == 0 {
        assert(s[i] == '"') by {
            assert(region[0] == s[i]);
        }
        assert(acc + name =~= acc);
    } else {
        let c = name[0];
        let e1 = escape_name(name.skip(1));
        assert(e == esc_char(c) + e1);
        if c == '"' || c == '\\' {
            assert(e.len() == 2 + e1.len());
            assert(s[i] == '\\') by {
                assert(region[0] == s[i]);
                assert((esc_char(c) + e1 + seq!['"'])[0] == '\\');
            }
            assert(s[i + 1] == c) by {
                assert(region[1] == s[i + 1]);
                assert((esc_char(c) + e1 + seq!['"'])[1] == c);
            }
            assert(s.subrange(i + 2, i + 2 + e1.len() + 1) =~= e1 + seq!['"']) by {
                assert forall|k: int| 0 <= k < e1.len() + 1 implies s.subrange(
                    i + 2,
                    i + 2 + e1.len() + 1,
                )[k] == (e1 + seq!['"'])[k] by {
                    assert(region[2 + k] == s[i + 2 + k]);
                    assert((esc_char(c) + e1 + seq!['"'])[2 + k] == (e1 + seq!['"'])[k]);
                }
            }
            lemma_parse_escaped(s, i + 2, name.skip(1), acc.push(c));
            assert(acc.push(c) + name.skip(1) =~= acc + name);
        } else {
            assert(e.len() == 1 + e1.len());
            assert(s[i] == c) by {
                assert(region[0] == s[i]);
                assert((esc_char(c) + e1 + seq!['"'])[0] == c);
            }
            assert(s.subrange(i + 1, i + 1 + e1.len() + 1) =~= e1 + seq!['"']) by {
                assert forall|k: int| 0 <= k < e1.len() + 1 implies s.subrange(
                    i + 1,
                    i + 1 + e1.len() + 1,
                )[k] == (e1 + seq!['"'])[k] by {
                    assert(region[1 + k] == s[i + 1 + k]);
                    assert((esc_char(c) + e1 + seq!['"'])[1 + k] == (e1 + seq!['"'])[k]);
                }
            }
            lemma_parse_escaped(s, i + 1, name.skip(1), acc.push(c));
            assert(acc.push(c) + name.skip(1) =~= acc + name);
        }
    }
}

/// What the name parser accepts is an escaped name: a successful parse
/// extends the accumulator, and the consumed region reads exactly the
/// escape of what was added, closing quote included.
pub proof fn lemma_parse_name_sound(s: Seq<char>, i: int, acc: Seq<char>)
    ensures
        match parse_name(s, i, acc) {
            Some(p) => {
                &&& acc.len() <= p.0.len()
                &&& p.0.subrange(0, acc.len() as int) == acc
                &&& i <= p.1 <= s.len()
                &&& s.subrange(i, p.1) == escape_name(p.0.skip(acc.len() as int)) + seq!['"']
            },
            None => true,
        },
    decreases s.len() - i,
{
    if i < 0 || i >= s.len() {
    } else if s[i] == '"' {
        let p = parse_name(s, i, acc).unwrap();
        assert(p.0 == acc && p.1 == i + 1);
        assert(p.0.subrange(0, acc.len() as int) =~= acc);
        assert(p.0.skip(acc.len() as int) =~= Seq::<char>::empty());
        assert(s.subrange(i, i + 1) =~= escape_name(Seq::<char>::empty()) + seq!['"']);
    } else if s[i] == '\\' {
        if i + 1 < s.len() && (s[i + 1] == '"' || s[i + 1] == '\\') {
            let c = s[i + 1];
            lemma_parse_name_sound(s, i + 2, acc.push(c));
            if parse_name(s, i + 2, acc.push(c)) is Some {
                let p = parse_name(s, i + 2, acc.push(c)).unwrap();
                assert(p.0.subrange(0, acc.len() as int) =~= acc);
                assert(p.0[acc.len() as int] == c) by {
                    assert(p.0.subrange(0, acc.len() as int + 1)[acc.len() as int] == c);
                }
                let name = p.0.skip(acc.len() as int);
                assert(name[0] == c);
                assert(name.skip(1) =~= p.0.skip(acc.len() as int + 1));
                assert(escape_name(name) == esc_char(c) + escape_name(name.skip(1)));
                assert(esc_char(c) == seq!['\\', c]);
                assert(s.subrange(i, p.1) =~= seq!['\\', c] + s.subrange(i + 2, p.1));
                assert(s.subrange(i, p.1) =~= escape_name(name) + seq!['"']);
            }
        }
    } else {
        let c = s[i];
        lemma_parse_name_sound(s, i + 1, acc.push(c));
        if parse_name(s, i + 1, acc.push(c)) is Some {
            let p = parse_name(s, i + 1, acc.push(c)).unwrap();
            assert(p.0.subrange(0, acc.len() as int) =~= acc);
            assert(p.0[acc.len() as int] == c) by {
                assert(p.0.subrange(0, acc.len() as int + 1)[acc.len() as int] == c);
            }
            let name = p.0.skip(acc.len() as int);
            assert(name[0] == c);
            assert(name.skip(1) =~= p.0.skip(acc.len() as int + 1));
            assert(escape_name(name) == esc_char(c) + escape_name(name.skip(1)));
            assert(esc_char(c) == seq![c]);
            assert(s.subrange(i, p.1) =~= seq![c] + s.subrange(i + 1, p.1));
            assert(s.subrange(i, p.1) =~= escape_name(name) + seq!['"']);
        }
    }
}

/// Parsing picks the encoded tail of a level list back out: where the
/// input from `i` reads `enc_rest(levels)` followed by the closing
/// bracket, the parser yields the accumulated names followed by `levels`.
pub proof fn lemma_parse_rest(s: Seq<char>, i: int, levels: Seq<Seq<char>>, acc: Seq<Seq<char>>)
    requires
        0 <= i,
        i + enc_rest(levels).len() + 1 <= s.len(),
        s.subrange(i, i + enc_rest(levels).len() + 1) == enc_rest(levels) + seq![']'],
    ensures
        parse_levels(s, i, acc, false) == Some((acc + levels, i + enc_rest(levels).len() + 1)),
    decreases levels.len(),
{
    let e = enc_rest(levels);
    let region = s.subrange(i, i + e.len() + 1);
    if levels.len() == 0 {
        assert(s[i] == ']') by {
            assert(region[0] == s[i]);
        }
        assert(acc + levels =~= acc);
    } else {
        let name = levels[0];
        let esc = escape_name(name);
        let e1 = enc_rest(levels.skip(1));
        assert(e == seq![','] + enc_quoted(name) + e1);
        assert(e.len() == 3 + esc.len() + e1.len());
        let whole = seq![','] + enc_quoted(name) + e1 + seq![']'];
        assert forall|k: int| 0 <= k < e.len() + 1 implies region[k] == whole[k] by {
            assert(region[k] == (e + seq![']'])[k]);
        }
        assert(s[i] == ',') by {
            assert(region[0] == whole[0]);
        }
        assert(s[i + 1] == '"') by {
            assert(region[1] == whole[1]);
            assert(enc_quoted(name)[0] == '"');
        }
        assert(s.subrange(i + 2, i + 2 + esc.len() + 1) =~= esc + seq!['"']) by {
            assert forall|k: int| 0 <= k < esc.len() + 1 implies s.subrange(
                i + 2,
                i + 2 + esc.len() + 1,
            )[k] == (esc + seq!['"'])[k] by {
                assert(region[2 + k] == whole[2 + k]);
                assert(enc_quoted(name) == seq!['"'] + esc + seq!['"']);
                if k < esc.len() {
                    assert(whole[2 + k] == enc_quoted(name)[1 + k]);
                    assert(enc_quoted(name)[1 + k] == esc[k]);
                } else {
                    assert(whole[2 + k] == enc_quoted(name)[1 + k]);
                    assert(enc_quoted(name)[1 + k] == '"');
                }
            }
        }
        lemma_parse_escaped(s, i + 2, name, Seq::empty());
        let j = i + 2 + esc.len() + 1;
        assert(Seq::empty() + name =~= name);
        assert(parse_name(s, i + 2, Seq::empty()) == Some((name, j)));
        assert(s.subrange(j, j + e1.len() + 1) =~= e1 + seq![']']) by {
            assert forall|k: int| 0 <= k < e1.len() + 1 implies s.subrange(
                j,
                j + e1.len() + 1,
            )[k] == (e1 + seq![']'])[k] by {
                assert(s.subrange(j, j + e1.len() + 1)[k] == s[j + k]);
                assert(region[3 + esc.len() + k] == whole[3 + esc.len() + k]);
                assert(s[j + k] == region[3 + esc.len() + k]);
                if k < e1.len() {
                    assert(whole[3 + esc.len() + k] == e1[k]);
                } else {
                    assert(whole[3 + esc.len() + k] == ']');
                }
            }
        }
        lemma_parse_rest(s, j, levels.skip(1), acc.push(name));
        assert(acc.push(name) + levels.skip(1) =~= acc + levels);
    }
}

/// What the list parser accepts is an encoded element list: a successful
/// parse extends the accumulator, and the consumed region reads exactly
/// the encoding of what was added — bare-first-element form at the start
/// of the array, comma-prefixed form after an element — closing bracket
/// included.
pub proof fn lemma_parse_levels_sound(s: Seq<char>, i: int, acc: Seq<Seq<char>>, first: bool)
    ensures
        match parse_levels(s, i, acc, first) {
            Some(p) => {
                &&& acc.len() <= p.0.len()
                &&& p.0.subrange(0, acc.len() as int) == acc
                &&& i <= p.1 <= s.len()
                &&& s.subrange(i, p.1) == (if first {
                    enc_items(p.0.skip(acc.len() as int))
                } else {
                    enc_rest(p.0.skip(acc.len() as int))
                }) + seq![']']
            },
            None => true,
        },
    decreases s.len() - i,
{
    if i < 0 || i >= s.len() {
    } else if s[i] == ']' {
        let p = parse_levels(s, i, acc, first).unwrap();
        assert(p.0 == acc && p.1 == i + 1);
        assert(p.0.subrange(0, acc.len() as int) =~= acc);
        assert(p.0.skip(acc.len() as int) =~= Seq::<Seq<char>>::empty());
        assert(s.subrange(i, i + 1) =~= Seq::<char>::empty() + seq![']']);
    } else if first && s[i] == '"' {
        match parse_name(s, i + 1, Seq::empty()) {
            Some(q) => {
                lemma_parse_name_sound(s, i + 1, Seq::empty());
                let name = q.0;
                assert(name.skip(0) =~= name);
                assert(s.subrange(i + 1, q.1) == escape_name(name) + seq!['"']);
                lemma_parse_name_bounds(s, i + 1, Seq::empty());
                lemma_parse_levels_sound(s, q.1, acc.push(name), false);
                if parse_levels(s, q.1, acc.push(name), false) is Some {
                    let p = parse_levels(s, q.1, acc.push(name), false).unwrap();
                    assert(p.0.subrange(0, acc.len() as int) =~= acc);
                    assert(p.0[acc.len() as int] == name) by {
                        assert(p.0.subrange(0, acc.len() as int + 1)[acc.len() as int] == name);
                    }
                    let items = p.0.skip(acc.len() as int);
                    assert(items[0] == name);
                    assert(items.skip(1) =~= p.0.skip(acc.len() as int + 1));
                    assert(items.len() > 0);
                    assert(enc_items(items) == enc_quoted(name) + enc_rest(items.skip(1)));
                    assert(s.subrange(i, p.1) =~= seq!['"'] + s.subrange(i + 1, q.1)
                        + s.subrange(q.1, p.1));
                    assert(seq!['"'] + (escape_name(name) + seq!['"']) =~= enc_quoted(name));
                    assert(s.subrange(i, p.1) =~= enc_items(items) + seq![']']);
                }
            },
            None => {},
        }
    } else if !first && s[i] == ',' && i + 1 < s.len() && s[i + 1] == '"' {
        match parse_name(s, i + 2, Seq::empty()) {
            Some(q) => {
                lemma_parse_name_sound(s, i + 2, Seq::empty());
                let name = q.0;
                assert(name.skip(0) =~= name);
                assert(s.subrange(i + 2, q.1) == escape_name(name) + seq!['"']);
                lemma_parse_name_bounds(s, i + 2, Seq::empty());
                lemma_parse_levels_sound(s, q.1, acc.push(name), false);
                if parse_levels(s, q.1, acc.push(name), false) is Some {
                    let p = parse_levels(s, q.1, acc.push(name), false).unwrap();
                    assert(p.0.subrange(0, acc.len() as int) =~= acc);
                    assert(p.0[acc.len() as int] == name) by {
                        assert(p.0.subrange(0, acc.len() as int + 1)[acc.len() as int] == name);
                    }
                    let items = p.0.skip(acc.len() as int);
                    assert(items[0] == name);
                    assert(items.skip(1) =~= p.0.skip(acc.len() as int + 1));
                    assert(items.len() > 0);
                    assert(enc_rest(items) == seq![','] + enc_quoted(name) + enc_rest(
                        items.skip(1),
                    ));
                    assert(s.subrange(i, p.1) =~= seq![',', '"'] + s.subrange(i + 2, q.1)
                        + s.subrange(q.1, p.1));
                    assert(seq![',', '"'] + (escape_name(name) + seq!['"']) =~= seq![',']
                        + enc_quoted(name));
                    assert(s.subrange(i, p.1) =~= enc_rest(items) + seq![']']);
                }
            },
            None => {},
        }
    }
}

/// Parsing picks a whole encoded level list back out: where the input
/// from `i` reads `enc_items(levels)` followed by the closing bracket,
/// the parser yields exactly `levels`.
pub proof fn lemma_parse_items(s: Seq<char>, i: int, levels: Seq<Seq<char>>)
    requires
        0 <= i,
        i + enc_items(levels).len() + 1 <= s.len(),
        s.subrange(i, i + enc_items(levels).len() + 1) == enc_items(levels) + seq![']'],
    ensures
        parse_levels(s, i, Seq::empty(), true) == Some(
            (levels, i + enc_items(levels).len() + 1),
        ),
{
    let e = enc_items(levels);
    let region = s.subrange(i, i + e.len() + 1);
    if levels.len() == 0 {
        assert(s[i] == ']') by {
            assert(region[0] == s[i]);
        }
        assert(parse_levels(s, i, Seq::empty(), true) == Some((Seq::<Seq<char>>::empty(), i + 1)));
    } else {
        let name = levels[0];
        let esc = escape_name(name);
        let e1 = enc_rest(levels.skip(1));
        assert(e == enc_quoted(name) + e1);
        assert(e.len() == 2 + esc.len() + e1.len());
        let whole = enc_quoted(name) + e1 + seq![']'];
        assert forall|k: int| 0 <= k < e.len() + 1 implies region[k] == whole[k] by {
            assert(region[k] == (e + seq![']'])[k]);
        }
        assert(enc_quoted(name) == seq!['"'] + esc + seq!['"']);
        assert(s[i] == '"') by {
            assert(region[0] == whole[0]);
            assert(enc_quoted(name)[0] == '"');
        }
        assert(s.subrange(i + 1, i + 1 + esc.len() + 1) =~= esc + seq!['"']) by {
            assert forall|k: int| 0 <= k < esc.len() + 1 implies s.subrange(
                i + 1,
                i + 1 + esc.len() + 1,
            )[k] == (esc + seq!['"'])[k] by {
                assert(region[1 + k] == whole[1 + k]);
                if k < esc.len() {
                    assert(whole[1 + k] == enc_quoted(name)[1 + k]);
                    assert(enc_quoted(name)[1 + k] == esc[k]);
                } else {
                    assert(whole[1 + k] == enc_quoted(name)[1 + k]);
                    assert(enc_quoted(name)[1 + k] == '"');
                }
            }
        }
        lemma_parse_escaped(s, i + 1, name, Seq::empty());
        let j = i + 1 + esc.len() + 1;
        assert(Seq::empty() + name =~= name);
        assert(parse_name(s, i + 1, Seq::empty()) == Some((name, j)));
        assert(s[i] != ']');
        assert(s.subrange(j, j + e1.len() + 1) =~= e1 + seq![']']) by {
            assert forall|k: int| 0 <= k < e1.len() + 1 implies s.subrange(
                j,
                j + e1.len() + 1,
            )[k] == (e1 + seq![']'])[k] by {
                assert(s.subrange(j, j + e1.len() + 1)[k] == s[j + k]);
                assert(region[2 + esc.len() + k] == whole[2 + esc.len() + k]);
                assert(s[j + k] == region[2 + esc.len() + k]);
                if k < e1.len() {
                    assert(whole[2 + esc.len() + k] == e1[k]);
                } else {
                    assert(whole[2 + esc.len() + k] == ']');
                }
            }
        }
        lemma_parse_rest(s, j, levels.skip(1), Seq::empty().push(name));
        assert(Seq::empty().push(name) + levels.skip(1) =~= levels);
    }
}

/// Decoding is canonical: whatever decoding accepts is exactly the
/// encoder's output for the decoded message — the decoder admits no
/// second spelling of any message.
pub proof fn lemma_decode_canonical(s: Seq<char>, m: MessageModel)
    requires
        decode_spec(s) == Some(m),
    ensures
        s == encode_spec(m),
{
    assert(starts_with_at(s, lit_prefix(), 0));
    if starts_with_at(s, lit_set_tag(), 12) {
        if starts_with_at(s, lit_null(), 30) {
            assert(closes_at(s, 34));
            assert(m == MessageModel { action: ActionModel::SetSelectedLevel(None) });
            let e = encode_spec(m);
            assert(e == lit_prefix() + (lit_set_tag() + lit_null()) + seq!['}', '}']);
            assert forall|k: int| 0 <= k < 36 implies s[k] == e[k] by {
                if k < 12 {
                    assert(s.subrange(0, 12)[k] == s[k]);
                } else if k < 30 {
                    assert(s.subrange(12, 30)[k - 12] == s[k]);
                } else if k < 34 {
                    assert(s.subrange(30, 34)[k - 30] == s[k]);
                }
            }
            assert(s =~= e);
        } else {
            lemma_parse_name_sound(s, 31, Seq::empty());
            let q = parse_name(s, 31, Seq::empty()).unwrap();
            let name = q.0;
            let j = q.1;
            assert(name.skip(0) =~= name);
            assert(s.subrange(31, j) == escape_name(name) + seq!['"']);
            assert(s.subrange(31, j).len() == j - 31);
            assert((escape_name(name) + seq!['"']).len() == escape_name(name).len() + 1);
            assert(j - 31 == escape_name(name).len() + 1);
            assert(m == MessageModel { action: ActionModel::SetSelectedLevel(Some(name)) });
            assert(closes_at(s, j));
            let e = encode_spec(m);
            assert(e == lit_prefix() + (lit_set_tag() + enc_quoted(name)) + seq!['}', '}']);
            assert(enc_quoted(name) == seq!['"'] + escape_name(name) + seq!['"']);
            assert(e.len() == s.len());
            assert forall|k: int| 0 <= k < s.len() implies s[k] == e[k] by {
                if k < 12 {
                    assert(s.subrange(0, 12)[k] == s[k]);
                } else if k < 30 {
                    assert(s.subrange(12, 30)[k - 12] == s[k]);
                } else if k == 30 {
                    assert(e[30] == enc_quoted(name)[0]);
                } else if k < j {
                    assert(s.subrange(31, j)[k - 31] == s[k]);
                    assert(e[k] == enc_quoted(name)[k - 30]);
                    assert(enc_quoted(name)[k - 30] == (escape_name(name) + seq!['"'])[k - 31]);
                }
            }
            assert(s =~= e);
        }
    } else {
        assert(starts_with_at(s, lit_init_tag(), 12));
        assert(s[27] == '[');
        lemma_parse_levels_sound(s, 28, Seq::empty(), true);
        let p = parse_levels(s, 28, Seq::empty(), true).unwrap();
        let items = p.0;
        let j = p.1;
        assert(items.skip(0) =~= items);
        assert(s.subrange(28, j) == enc_items(items) + seq![']']);
        assert(s.subrange(28, j).len() == j - 28);
        assert((enc_items(items) + seq![']']).len() == enc_items(items).len() + 1);
        assert(j - 28 == enc_items(items).len() + 1);
        assert(m == MessageModel { action: ActionModel::LevelListInit(items) });
        assert(closes_at(s, j));
        let e = encode_spec(m);
        assert(e == lit_prefix() + (lit_init_tag() + enc_level_list(items)) + seq!['}', '}']);
        assert(enc_level_list(items) == seq!['['] + enc_items(items) + seq![']']);
        assert(e.len() == s.len());
        assert forall|k: int| 0 <= k < s.len() implies s[k] == e[k] by {
            if k < 12 {
                assert(s.subrange(0, 12)[k] == s[k]);
            } else if k < 27 {
                assert(s.subrange(12, 27)[k - 12] == s[k]);
            } else if k == 27 {
                assert(e[27] == enc_level_list(items)[0]);
            } else if k < j {
                assert(s.subrange(28, j)[k - 28] == s[k]);
                assert(e[k] == enc_level_list(items)[k - 27]);
                assert(enc_level_list(items)[k - 27] == (enc_items(items) + seq![']'])[k - 28]);
            }
        }
        assert(s =~= e);
    }
}

/// Round trip: decoding an encoded message yields that message back,
/// for every message value.
pub proof fn lemma_round_trip(m: MessageModel)
    ensures
        decode_spec(encode_spec(m)) == Some(m),
{
    let s = encode_spec(m);
    match m.action {
        ActionModel::SetSelectedLevel(level) => {
            let body = lit_set_tag() + enc_selection(level);
            assert(s == lit_prefix() + body + seq!['}', '}']);
            assert(starts_with_at(s, lit_prefix(), 0)) by {
                assert(s.subrange(0, 12) =~= lit_prefix());
            }
            assert(starts_with_at(s, lit_set_tag(), 12)) by {
                assert(s.subrange(12, 30) =~= lit_set_tag());
            }
            match level {
                None => {
                    assert(s.len() == 36);
                    assert(starts_with_at(s, lit_null(), 30)) by {
                        assert(s.subrange(30, 34) =~= lit_null());
                    }
                    assert(closes_at(s, 34)) by {
                        assert(s[34] == '}');
                        assert(s[35] == '}');
                    }
                    assert(m == MessageModel { action: ActionModel::SetSelectedLevel(None) });
                },
                Some(name) => {
                    let esc = escape_name(name);
                    assert(s.len() == 30 + esc.len() + 2 + 2);
                    assert(s[30] == '"');
                    assert(!starts_with_at(s, lit_null(), 30)) by {
                        if starts_with_at(s, lit_null(), 30) {
                            assert(s.subrange(30, 34)[0] == s[30]);
                            assert(lit_null()[0] == 'n');
                        }
                    }
                    assert(s.subrange(31, 31 + esc.len() as int + 1) =~= esc + seq!['"']);
                    lemma_parse_escaped(s, 31, name, Seq::empty());
                    assert(Seq::empty() + name =~= name);
                    let j: int = 31 + esc.len() as int + 1;
                    assert(closes_at(s, j)) by {
                        assert(s[j] == '}');
                        assert(s[j + 1] == '}');
                    }
                    assert(m == MessageModel {
                        action: ActionModel::SetSelectedLevel(Some(name)),
                    });
                },
            }
        },
        ActionModel::LevelListInit(levels) => {
            let items = enc_items(levels);
            let body = lit_init_tag() + enc_level_list(levels);
            assert(s == lit_prefix() + body + seq!['}', '}']);
            assert(starts_with_at(s, lit_prefix(), 0)) by {
                assert(s.subrange(0, 12) =~= lit_prefix());
            }
            assert(starts_with_at(s, lit_init_tag(), 12)) by {
                assert(s.subrange(12, 27) =~= lit_init_tag());
            }
            assert(!starts_with_at(s, lit_set_tag(), 12)) by {
                if starts_with_at(s, lit_set_tag(), 12) {
                    assert(s.subrange(12, 30)[0] == s[12]);
                    assert(lit_set_tag()[0] == 'S');
                    assert(s[12] == 'L');
                }
            }
            assert(s[27] == '[');
            assert(s.len() == 28 + items.len() + 1 + 2);
            assert(s.subrange(28, 28 + items.len() as int + 1) =~= items + seq![']']);
            lemma_parse_items(s, 28, levels);
            let j: int = 28 + items.len() as int + 1;
            assert(closes_at(s, j)) by {
                assert(s[j] == '}');
                assert(s[j + 1] == '}');
            }
            assert(m == MessageModel { action: ActionModel::LevelListInit(levels) });
        },
    }
}

} // verus!
