//! Turning the panel's presentation settings into MOTD text: placeholders,
//! legacy colour codes, line swapping and hexadecimal colour gradients.
use vstd::prelude::*;
use vstd::utf8::*;
use crate::text::{
    ascii_lower, lower_ascii, is_whitespace, whitespace, chars_of, find_key, key_index, keys_unique, lemma_no_key, unique_key_lookup, replace_all_untouched, replace_all_whole, push_str, find_char, first_index, is_first_index, push_all, replace, replace_all, slice_chars, string_of,
};
use crate::agent::model::{
    GlobalSettings, MotdStateSettings, ServerState, SnapshotServer, state_key,
};
use base64::Engine;

verus! {

/// Whether `c` names a legacy formatting code: a colour digit `0`-`9`,
/// `a`-`f`, a style `k`-`o`, or reset `r`, in either case.
pub open spec fn is_format_code(c: char) -> bool {
    let l = ascii_lower(c);
    ||| '0' <= l <= '9'
    ||| 'a' <= l <= 'f'
    ||| 'k' <= l <= 'o'
    ||| l == 'r'
}

/// `&` followed by a formatting code becomes `§` and the lowercase code; all
/// other characters are kept.
pub open spec fn normalized(s: Seq<char>) -> Seq<char>
    decreases s.len(),
{
    if s.len() == 0 {
        s
    } else if s[0] == '&' && s.len() >= 2 && is_format_code(s[1]) {
        seq!['§', ascii_lower(s[1])] + normalized(s.skip(2))
    } else {
        seq![s[0]] + normalized(s.drop_first())
    }
}

fn format_code(c: char) -> (r: bool)
    ensures
        r == is_format_code(c),
{
    let l = lower_ascii(c);
    ('0' <= l && l <= '9') || ('a' <= l && l <= 'f') || ('k' <= l && l <= 'o') || l == 'r'
}

fn normalize_chars(s: &Vec<char>) -> (r: Vec<char>)
    ensures
        r@ == normalized(s@),
{
    let mut out: Vec<char> = Vec::new();
    let mut i: usize = 0;
    assert(s@.skip(0) =~= s@);
    assert(out@ + normalized(s@) =~= normalized(s@));
    while i < s.len()
        invariant
            i <= s@.len(),
            out@ + normalized(s@.skip(i as int)) == normalized(s@),
        decreases s@.len() - i,
    {
        let ghost rest = s@.skip(i as int);
        if s[i] == '&' && i + 1 < s.len() && format_code(s[i + 1]) {
            assert(rest[1] == s@[i + 1]);
            assert(rest.skip(2) =~= s@.skip(i + 2));
            out.push('§');
            out.push(lower_ascii(s[i + 1]));
            i = i + 2;
        } else {
            assert(rest.drop_first() =~= s@.skip(i + 1));
            out.push(s[i]);
            i = i + 1;
        }
        assert(out@ + normalized(s@.skip(i as int)) =~= normalized(s@));
    }
    assert(s@.skip(i as int) =~= Seq::<char>::empty());
    assert(out@ + Seq::<char>::empty() =~= out@);
    out
}

/// Rewrites `&` colour and style codes into `§` codes.
pub fn normalize_legacy_codes(text: &str) -> (r: String)
    ensures
        r@ == normalized(text@),
{
    let chars = chars_of(text);
    let out = normalize_chars(&chars);
    string_of(&out)
}

/// Swaps the first two lines of `s`; text with no line break is unchanged and
/// everything after the second line break stays where it is.
pub open spec fn lines_swapped(s: Seq<char>) -> Seq<char> {
    let i = first_index(s, '\n');
    if i < 0 {
        s
    } else {
        let first = s.take(i);
        let after = s.skip(i + 1);
        let j = first_index(after, '\n');
        if j < 0 {
            after + seq!['\n'] + first
        } else {
            after.take(j) + seq!['\n'] + first + seq!['\n'] + after.skip(j + 1)
        }
    }
}

/// Swaps the first two lines of the text.
pub fn swap_lines(value: String) -> (r: String)
    ensures
        r@ == lines_swapped(value@),
{
    let s = chars_of(value.as_str());
    match find_char(&s, '\n') {
        None => value,
        Some(i) => {
            assert(i < s.len());
            let first = slice_chars(&s, 0, i);
            let after = slice_chars(&s, i + 1, s.len());
            assert(first@ =~= s@.take(i as int));
            assert(after@ =~= s@.skip(i + 1));
            let mut out: Vec<char> = Vec::new();
            match find_char(&after, '\n') {
                None => {
                    push_all(&mut out, &after);
                    out.push('\n');
                    push_all(&mut out, &first);
                },
                Some(j) => {
                    let second = slice_chars(&after, 0, j);
                    let rest = slice_chars(&after, j + 1, after.len());
                    assert(second@ =~= after@.take(j as int));
                    assert(rest@ =~= after@.skip(j + 1));
                    push_all(&mut out, &second);
                    out.push('\n');
                    push_all(&mut out, &first);
                    out.push('\n');
                    push_all(&mut out, &rest);
                },
            }
            assert(out@ =~= lines_swapped(s@));
            string_of(&out)
        },
    }
}

/// The lowercase hexadecimal digit of a nibble.
pub open spec fn hex_digit(n: u8) -> char {
    if n < 10 {
        (('0' as u8) + n) as char
    } else {
        (('a' as u8) + n - 10) as char
    }
}

/// Law: the digits of a legacy colour code are lowercase hexadecimal, and
/// read back as hexadecimal they give the colour's channels.
pub proof fn legacy_hex_reads_back(color: (u8, u8, u8))
    ensures
        legacy_hex_chars(color).len() == 14,
        legacy_hex_chars(color)[0] == '§' && legacy_hex_chars(color)[1] == 'x',
        forall|k: int|
            0 <= k < 6 ==> legacy_hex_chars(color)[2 + 2 * k] == '§' && {
                let d = #[trigger] legacy_hex_chars(color)[3 + 2 * k];
                '0' <= d <= '9' || 'a' <= d <= 'f'
            },
        hex_value(legacy_hex_chars(color)[3] as u8) == Some((color.0 / 16) as u8)
            && hex_value(legacy_hex_chars(color)[5] as u8) == Some((color.0 % 16) as u8)
            && hex_value(legacy_hex_chars(color)[7] as u8) == Some((color.1 / 16) as u8)
            && hex_value(legacy_hex_chars(color)[9] as u8) == Some((color.1 % 16) as u8)
            && hex_value(legacy_hex_chars(color)[11] as u8) == Some((color.2 / 16) as u8)
            && hex_value(legacy_hex_chars(color)[13] as u8) == Some((color.2 % 16) as u8),
{
    let c = legacy_hex_chars(color);
    assert forall|k: int| 0 <= k < 6 implies c[2 + 2 * k] == '§' && {
        let d = #[trigger] c[3 + 2 * k];
        '0' <= d <= '9' || 'a' <= d <= 'f'
    } by {
        assert(k == 0 || k == 1 || k == 2 || k == 3 || k == 4 || k == 5);
    }
}

/// `§x` followed by the six nibbles of an RGB colour, each after `§`: the
/// legacy hexadecimal colour code.
pub open spec fn legacy_hex_chars(color: (u8, u8, u8)) -> Seq<char> {
    seq![
        '§',
        'x',
        '§',
        hex_digit(color.0 / 16),
        '§',
        hex_digit(color.0 % 16),
        '§',
        hex_digit(color.1 / 16),
        '§',
        hex_digit(color.1 % 16),
        '§',
        hex_digit(color.2 / 16),
        '§',
        hex_digit(color.2 % 16),
    ]
}

fn nibble_char(n: u8) -> (r: char)
    requires
        n < 16,
    ensures
        r == hex_digit(n),
{
    if n < 10 {
        (('0' as u8) + n) as char
    } else {
        (('a' as u8) + n - 10) as char
    }
}

fn push_legacy_hex(out: &mut Vec<char>, color: (u8, u8, u8))
    ensures
        final(out)@ == old(out)@ + legacy_hex_chars(color),
{
    out.push('§');
    out.push('x');
    out.push('§');
    out.push(nibble_char(color.0 / 16));
    out.push('§');
    out.push(nibble_char(color.0 % 16));
    out.push('§');
    out.push(nibble_char(color.1 / 16));
    out.push('§');
    out.push(nibble_char(color.1 % 16));
    out.push('§');
    out.push(nibble_char(color.2 / 16));
    out.push('§');
    out.push(nibble_char(color.2 % 16));
    assert(final(out)@ =~= old(out)@ + legacy_hex_chars(color));
}

/// The legacy hexadecimal colour code of an RGB colour.
pub fn legacy_hex(color: (u8, u8, u8)) -> (r: String)
    ensures
        r@ == legacy_hex_chars(color),
{
    let mut out: Vec<char> = Vec::new();
    push_legacy_hex(&mut out, color);
    assert(out@ =~= legacy_hex_chars(color));
    string_of(&out)
}

/// The value of an ASCII hexadecimal digit byte.
pub open spec fn hex_value(b: u8) -> Option<u8> {
    if 0x30 <= b <= 0x39 {
        Some((b - 0x30) as u8)
    } else if 0x61 <= b <= 0x66 {
        Some((b - 0x61 + 10) as u8)
    } else if 0x41 <= b <= 0x46 {
        Some((b - 0x41 + 10) as u8)
    } else {
        None
    }
}

/// Law: the ASCII digits `0`-`9` are worth 0 to 9 and the letters `a`-`f`
/// and `A`-`F` are worth 10 to 15; no other byte is a hexadecimal digit. A
/// colour is `#` and three pairs of such digits, each pair worth sixteen
/// times its first digit plus its second.
pub proof fn hex_digits_and_colors(b: u8, text: Seq<u8>)
    ensures
        hex_value(b) is Some <==> (0x30 <= b <= 0x39 || 0x41 <= b <= 0x46 || 0x61 <= b <= 0x66),
        0x30 <= b <= 0x39 ==> hex_value(b) == Some((b - 0x30) as u8),
        0x61 <= b <= 0x66 ==> hex_value(b) == Some((b - 0x61 + 10) as u8),
        0x41 <= b <= 0x46 ==> hex_value(b) == Some((b - 0x41 + 10) as u8),
        text.len() == 7 && text[0] == 0x23 && (forall|j: int|
            1 <= j < 7 ==> #[trigger] hex_value(text[j]) is Some) ==> color_value(text) == Some(
            (
                (hex_value(text[1])->0 * 16 + hex_value(text[2])->0) as u8,
                (hex_value(text[3])->0 * 16 + hex_value(text[4])->0) as u8,
                (hex_value(text[5])->0 * 16 + hex_value(text[6])->0) as u8,
            ),
        ),
        text.len() != 7 || text[0] != 0x23 ==> color_value(text) is None,
{
    if text.len() == 7 && text[0] == 0x23 && (forall|j: int|
        1 <= j < 7 ==> #[trigger] hex_value(text[j]) is Some) {
        assert(hex_value(text[1]) is Some && hex_value(text[3]) is Some && hex_value(text[5]) is Some);
        assert(hex_value(text[2]) is Some && hex_value(text[4]) is Some && hex_value(text[6]) is Some);
    }
}

/// A two-byte base-16 number as `u8::from_str_radix` reads it: two digits, or
/// a `+` sign and one digit.
pub open spec fn hex_pair(b1: u8, b2: u8) -> Option<u8> {
    if b1 == 0x2b {
        hex_value(b2)
    } else {
        match (hex_value(b1), hex_value(b2)) {
            (Some(h), Some(l)) => Some((h * 16 + l) as u8),
            _ => None,
        }
    }
}

/// The colour written `#RRGGBB` in the UTF-8 bytes `b`, if any.
pub open spec fn color_value(b: Seq<u8>) -> Option<(u8, u8, u8)> {
    if b.len() != 7 || b[0] != 0x23 {
        None
    } else {
        match (hex_pair(b[1], b[2]), hex_pair(b[3], b[4]), hex_pair(b[5], b[6])) {
            (Some(r), Some(g), Some(bl)) => Some((r, g, bl)),
            _ => None,
        }
    }
}

/// Colour text that can be read without cutting a character in two: every
/// text except seven bytes starting with `#` whose fourth byte continues a
/// multi-byte character, or whose red pair is a number and whose sixth byte
/// continues a multi-byte character.
pub open spec fn color_text_sliceable(b: Seq<u8>) -> bool {
    !(b.len() == 7 && b[0] == 0x23 && (is_continuation_byte(b[3]) || (hex_pair(b[1], b[2]) is Some
        && is_continuation_byte(b[5]))))
}

fn hex_byte(b: u8) -> (r: Option<u8>)
    ensures
        r == hex_value(b),
{
    if 0x30 <= b && b <= 0x39 {
        Some(b - 0x30)
    } else if 0x61 <= b && b <= 0x66 {
        Some(b - 0x61 + 10)
    } else if 0x41 <= b && b <= 0x46 {
        Some(b - 0x41 + 10)
    } else {
        None
    }
}

fn radix16_pair(b1: u8, b2: u8) -> (r: Option<u8>)
    ensures
        r == hex_pair(b1, b2),
{
    if b1 == 0x2b {
        hex_byte(b2)
    } else {
        match (hex_byte(b1), hex_byte(b2)) {
            (Some(h), Some(l)) => Some(h * 16 + l),
            _ => None,
        }
    }
}

/// Parses a `#RRGGBB` colour.
pub fn parse_color(value: &str) -> (r: Option<(u8, u8, u8)>)
    requires
        color_text_sliceable(encode_utf8(value@)),
    ensures
        r == color_value(encode_utf8(value@)),
{
    let b = value.as_bytes();
    if b.len() != 7 || b[0] != 0x23 {
        return None;
    }
    match (radix16_pair(b[1], b[2]), radix16_pair(b[3], b[4]), radix16_pair(b[5], b[6])) {
        (Some(r), Some(g), Some(bl)) => Some((r, g, bl)),
        _ => None,
    }
}

/// `{server_name}`, `{node_name}` and `{state}` replaced, in that order, by
/// the server's name, its node's name and the state key.
pub open spec fn with_placeholders(
    value: Seq<char>,
    server_name: Seq<char>,
    node_name: Seq<char>,
    state: ServerState,
) -> Seq<char> {
    replace_all(
        replace_all(replace_all(value, "{server_name}"@, server_name), "{node_name}"@, node_name),
        "{state}"@,
        state_key(state),
    )
}

/// Law: text without `{` is left as it is, and each placeholder on its own
/// becomes the server's name, its node's name, or the state key (when the
/// names themselves hold no `{`).
pub proof fn placeholders_filled(
    value: Seq<char>,
    server_name: Seq<char>,
    node_name: Seq<char>,
    state: ServerState,
)
    ensures
        !value.contains('{') ==> with_placeholders(value, server_name, node_name, state) == value,
        !server_name.contains('{') ==> with_placeholders(
            "{server_name}"@,
            server_name,
            node_name,
            state,
        ) == server_name,
        !node_name.contains('{') ==> with_placeholders("{node_name}"@, server_name, node_name, state)
            == node_name,
        with_placeholders("{state}"@, server_name, node_name, state) == state_key(state),
{
    reveal_strlit("{server_name}");
    reveal_strlit("{node_name}");
    reveal_strlit("{state}");
    let p1 = "{server_name}"@;
    let p2 = "{node_name}"@;
    let p3 = "{state}"@;
    lemma_state_key_plain(state);
    if !value.contains('{') {
        replace_all_untouched(value, p1, server_name);
        replace_all_untouched(value, p2, node_name);
        replace_all_untouched(value, p3, state_key(state));
    }
    if !server_name.contains('{') {
        replace_all_whole(p1, server_name);
        replace_all_untouched(server_name, p2, node_name);
        replace_all_untouched(server_name, p3, state_key(state));
    }
    if !node_name.contains('{') {
        lemma_no_prefix_at_start(p2, p1, server_name);
        replace_all_whole(p2, node_name);
        replace_all_untouched(node_name, p3, state_key(state));
    }
    lemma_no_prefix_at_start(p3, p1, server_name);
    lemma_no_prefix_at_start(p3, p2, node_name);
    replace_all_whole(p3, state_key(state));
}

proof fn lemma_no_prefix_at_start(s: Seq<char>, pattern: Seq<char>, replacement: Seq<char>)
    requires
        s.len() >= 1,
        pattern.len() > s.len(),
        !s.drop_first().contains(pattern[0]),
    ensures
        replace_all(s, pattern, replacement) == s,
{
    assert(!pattern.is_prefix_of(s));
    replace_all_untouched(s.drop_first(), pattern, replacement);
    assert(seq![s[0]] + s.drop_first() =~= s);
}

proof fn lemma_state_key_plain(state: ServerState)
    ensures
        !state_key(state).contains('{'),
{
    reveal_strlit("offline");
    reveal_strlit("starting");
    reveal_strlit("stopping");
    reveal_strlit("running");
    reveal_strlit("suspended");
    reveal_strlit("node_maintenance");
    reveal_strlit("transferring");
    reveal_strlit("installing");
    reveal_strlit("install_failed");
    reveal_strlit("restoring_backup");
    reveal_strlit("backup_restore_failed");
    reveal_strlit("node_unreachable");
}

fn placeholder_chars(value: &Vec<char>, server: &SnapshotServer, state: ServerState) -> (r: Vec<
    char,
>)
    ensures
        r@ == with_placeholders(value@, server.server_name@, server.node_name@, state),
{
    let p1 = chars_of("{server_name}");
    let p2 = chars_of("{node_name}");
    let p3 = chars_of("{state}");
    proof {
        reveal_strlit("{server_name}");
        reveal_strlit("{node_name}");
        reveal_strlit("{state}");
    }
    let name = chars_of(server.server_name.as_str());
    let node = chars_of(server.node_name.as_str());
    let key = chars_of(state.key());
    let step1 = replace(value, &p1, &name);
    let step2 = replace(&step1, &p2, &node);
    replace(&step2, &p3, &key)
}

/// Fills in the `{server_name}`, `{node_name}` and `{state}` placeholders.
pub fn placeholders(value: &str, server: &SnapshotServer, state: ServerState) -> (r: String)
    ensures
        r@ == with_placeholders(value@, server.server_name@, server.node_name@, state),
{
    let chars = chars_of(value);
    let out = placeholder_chars(&chars, server, state);
    string_of(&out)
}

/// Number of characters that are not whitespace.
pub open spec fn visible_count(s: Seq<char>) -> nat
    decreases s.len(),
{
    if s.len() == 0 {
        0
    } else {
        (if is_whitespace(s[0]) {
            0nat
        } else {
            1nat
        }) + visible_count(s.drop_first())
    }
}

/// The gradient's colour stops: the colours that parse, in order.
pub open spec fn gradient_stops(colors: Seq<String>) -> Seq<(u8, u8, u8)>
    decreases colors.len(),
{
    if colors.len() == 0 {
        Seq::empty()
    } else {
        match color_value(encode_utf8(colors[0]@)) {
            Some(c) => seq![c] + gradient_stops(colors.drop_first()),
            None => gradient_stops(colors.drop_first()),
        }
    }
}

/// Number of characters a gradient colours: the characters that are neither
/// whitespace nor part of a `§` pair (a `§` and the character after it).
pub open spec fn coloured_count(s: Seq<char>) -> nat
    decreases s.len(),
{
    if s.len() == 0 {
        0
    } else if s[0] == '§' && s.len() >= 2 {
        coloured_count(s.skip(2))
    } else if is_whitespace(s[0]) {
        coloured_count(s.drop_first())
    } else {
        1 + coloured_count(s.drop_first())
    }
}

/// Colours the text from coloured character `index` on: `§` and the
/// character after it are copied, whitespace is copied, and every other
/// character is preceded by the legacy code of its shade in `shades`.
pub open spec fn gradient_walk(s: Seq<char>, index: nat, shades: Seq<(u8, u8, u8)>) -> Seq<char>
    decreases s.len(),
{
    if s.len() == 0 {
        s
    } else if s[0] == '§' && s.len() >= 2 {
        s.take(2) + gradient_walk(s.skip(2), index, shades)
    } else if is_whitespace(s[0]) {
        seq![s[0]] + gradient_walk(s.drop_first(), index, shades)
    } else {
        legacy_hex_chars(shades[index as int]) + seq![s[0]] + gradient_walk(
            s.drop_first(),
            index + 1,
            shades,
        )
    }
}

/// Number of shades a gradient over `colors` needs for `s`: one per coloured
/// character, none when fewer than two colours parse.
pub open spec fn gradient_slots(s: Seq<char>, colors: Seq<String>) -> nat {
    if gradient_stops(colors).len() < 2 {
        0
    } else {
        coloured_count(s)
    }
}

/// The text with a gradient over the given colours, the `i`-th coloured
/// character taking `shades[i]`; unchanged when fewer than two colours parse.
pub open spec fn gradient_text(s: Seq<char>, colors: Seq<String>, shades: Seq<(u8, u8, u8)>) -> Seq<
    char,
> {
    if gradient_stops(colors).len() < 2 {
        s
    } else {
        gradient_walk(s, 0, shades)
    }
}

/// The colour texts that parse, in order.
pub open spec fn parsing_colors(colors: Seq<String>) -> Seq<String>
    decreases colors.len(),
{
    if colors.len() == 0 {
        colors
    } else if color_value(encode_utf8(colors[0]@)) is Some {
        seq![colors[0]] + parsing_colors(colors.drop_first())
    } else {
        parsing_colors(colors.drop_first())
    }
}

/// Every colour text can be read without cutting a character in two.
pub open spec fn colors_sliceable(colors: Seq<String>) -> bool {
    forall|i: int| 0 <= i < colors.len() ==> color_text_sliceable(encode_utf8(#[trigger] colors[i]@))
}

/// Whether every colour text can be read without cutting a character in two.
pub fn colors_readable(colors: &[String]) -> (r: bool)
    ensures
        r == colors_sliceable(colors@),
{
    let mut i: usize = 0;
    while i < colors.len()
        invariant
            i <= colors@.len(),
            forall|j: int| 0 <= j < i ==> color_text_sliceable(encode_utf8(#[trigger] colors@[j]@)),
        decreases colors@.len() - i,
    {
        let b = colors[i].as_str().as_bytes();
        if b.len() == 7 && b[0] == 0x23 && ((0x80 <= b[3] && b[3] <= 0xbf) || (radix16_pair(
            b[1],
            b[2],
        ).is_some() && 0x80 <= b[5] && b[5] <= 0xbf)) {
            return false;
        }
        i = i + 1;
    }
    true
}

fn parse_stops(colors: &[String]) -> (r: Vec<(u8, u8, u8)>)
    requires
        colors_sliceable(colors@),
    ensures
        r@ == gradient_stops(colors@),
{
    let mut out: Vec<(u8, u8, u8)> = Vec::new();
    let mut i: usize = 0;
    assert(colors@.skip(0) =~= colors@);
    assert(out@ + gradient_stops(colors@) =~= gradient_stops(colors@));
    while i < colors.len()
        invariant
            i <= colors@.len(),
            colors_sliceable(colors@),
            out@ + gradient_stops(colors@.skip(i as int)) == gradient_stops(colors@),
        decreases colors@.len() - i,
    {
        let ghost rest = colors@.skip(i as int);
        assert(rest.drop_first() =~= colors@.skip(i + 1));
        assert(rest[0] == colors@[i as int]);
        let text = colors[i].as_str();
        assert(color_text_sliceable(encode_utf8(colors@[i as int]@)));
        match parse_color(text) {
            Some(c) => {
                out.push(c);
                assert(out@ + gradient_stops(colors@.skip(i + 1)) =~= gradient_stops(colors@));
            },
            None => {},
        }
        i = i + 1;
    }
    assert(colors@.skip(i as int) =~= Seq::<String>::empty());
    assert(out@ + Seq::<(u8, u8, u8)>::empty() =~= out@);
    out
}

fn count_visible(s: &Vec<char>) -> (r: usize)
    ensures
        r == visible_count(s@),
{
    let mut count: usize = 0;
    let mut i: usize = 0;
    assert(s@.skip(0) =~= s@);
    while i < s.len()
        invariant
            i <= s@.len(),
            count <= i,
            count + visible_count(s@.skip(i as int)) == visible_count(s@),
        decreases s@.len() - i,
    {
        assert(s@.skip(i as int).drop_first() =~= s@.skip(i + 1));
        if !whitespace(s[i]) {
            count = count + 1;
        }
        i = i + 1;
    }
    assert(s@.skip(i as int) =~= Seq::<char>::empty());
    count
}

fn count_coloured(s: &Vec<char>) -> (r: usize)
    ensures
        r == coloured_count(s@),
{
    let mut count: usize = 0;
    let mut pos: usize = 0;
    assert(s@.skip(0) =~= s@);
    while pos < s.len()
        invariant
            pos <= s@.len(),
            count <= pos,
            count + coloured_count(s@.skip(pos as int)) == coloured_count(s@),
        decreases s@.len() - pos,
    {
        let ghost rest = s@.skip(pos as int);
        assert(rest[0] == s@[pos as int]);
        if s[pos] == '§' && pos + 1 < s.len() {
            assert(rest.skip(2) =~= s@.skip(pos + 2));
            pos = pos + 2;
        } else {
            assert(rest.drop_first() =~= s@.skip(pos + 1));
            if !whitespace(s[pos]) {
                count = count + 1;
            }
            pos = pos + 1;
        }
    }
    assert(s@.skip(pos as int) =~= Seq::<char>::empty());
    count
}

/// What the shades of a gradient are computed from: the colour stops, the
/// number of non-whitespace characters of the text, and the number of
/// shades the text needs.
#[derive(Debug, Clone)]
pub struct GradientPlan {
    pub stops: Vec<(u8, u8, u8)>,
    pub visible: usize,
    pub coloured: usize,
}

/// The plan of a gradient over `colors` for `text`.
pub fn gradient_plan(text: &str, colors: &[String]) -> (r: GradientPlan)
    requires
        colors_sliceable(colors@),
    ensures
        r.stops@ == gradient_stops(colors@),
        r.visible == visible_count(text@),
        r.coloured == gradient_slots(text@, colors@),
{
    let stops = parse_stops(colors);
    let chars = chars_of(text);
    let visible = count_visible(&chars);
    let coloured = if stops.len() < 2 {
        0
    } else {
        count_coloured(&chars)
    };
    GradientPlan { stops, visible, coloured }
}

fn gradient_chars(s: &Vec<char>, shades: &[(u8, u8, u8)]) -> (r: Vec<char>)
    requires
        shades@.len() >= coloured_count(s@),
    ensures
        r@ == gradient_walk(s@, 0, shades@),
{
    let ghost whole = gradient_walk(s@, 0, shades@);
    let mut out: Vec<char> = Vec::new();
    let mut index: usize = 0;
    let mut pos: usize = 0;
    assert(s@.skip(0) =~= s@);
    assert(out@ + whole =~= whole);
    while pos < s.len()
        invariant
            pos <= s@.len(),
            shades@.len() >= coloured_count(s@),
            whole == gradient_walk(s@, 0, shades@),
            index + coloured_count(s@.skip(pos as int)) == coloured_count(s@),
            out@ + gradient_walk(s@.skip(pos as int), index as nat, shades@) == whole,
        decreases s@.len() - pos,
    {
        let ghost rest = s@.skip(pos as int);
        let c = s[pos];
        assert(rest[0] == c);
        if c == '§' && pos + 1 < s.len() {
            proof {
                assert(rest.skip(2) =~= s@.skip(pos + 2));
                assert(rest.take(2) =~= seq![c, s@[pos + 1]]);
            }
            out.push(c);
            out.push(s[pos + 1]);
            pos = pos + 2;
        } else if whitespace(c) {
            assert(rest.drop_first() =~= s@.skip(pos + 1));
            out.push(c);
            pos = pos + 1;
        } else {
            assert(rest.drop_first() =~= s@.skip(pos + 1));
            push_legacy_hex(&mut out, shades[index]);
            out.push(c);
            index = index + 1;
            pos = pos + 1;
        }
        assert(out@ + gradient_walk(s@.skip(pos as int), index as nat, shades@) =~= whole);
    }
    assert(s@.skip(pos as int) =~= Seq::<char>::empty());
    assert(out@ + Seq::<char>::empty() =~= out@);
    out
}

/// Colours each coloured character of `text` with its shade: the `i`-th
/// character that is neither whitespace nor part of a `§` pair is preceded
/// by the legacy code of `shades[i]`. The text is returned unchanged when
/// fewer than two colours parse.
pub fn apply_gradient(text: &str, colors: &[String], shades: &[(u8, u8, u8)]) -> (r: String)
    requires
        colors_sliceable(colors@),
        shades@.len() >= gradient_slots(text@, colors@),
    ensures
        r@ == gradient_text(text@, colors@, shades@),
        r@ == gradient_text(text@, parsing_colors(colors@), shades@),
        gradient_stops(colors@).len() < 2 ==> r@ == text@,
        is_subsequence(text@, r@),
        r@.len() == text@.len() + 14 * gradient_slots(text@, colors@),
{
    proof {
        gradient_ignores_unparsed_colors(text@, colors@, shades@);
        gradient_keeps_text(text@, colors@, shades@);
    }
    let stops = parse_stops(colors);
    if stops.len() < 2 {
        return text.to_owned();
    }
    let chars = chars_of(text);
    let out = gradient_chars(&chars, shades);
    string_of(&out)
}

/// Position of the presentation used for `state`: its own entry, else the
/// `offline` entry, else -1.
pub open spec fn selected_index(states: Seq<(String, MotdStateSettings)>, state: ServerState) -> int {
    let own = key_index(states, state_key(state));
    if own >= 0 {
        own
    } else {
        key_index(states, "offline"@)
    }
}

/// The presentation settings for `state`, falling back to those of `offline`.
pub fn selected_state(settings: &GlobalSettings, state: ServerState) -> (r: Option<&MotdStateSettings>)
    ensures
        selected_index(settings.states@, state) >= 0 ==> r == Some(
            &settings.states@[selected_index(settings.states@, state)].1,
        ),
        selected_index(settings.states@, state) < 0 ==> r is None,
        forall|i: int|
            0 <= i < settings.states@.len() && keys_unique(settings.states@)
                && #[trigger] settings.states@[i].0@ == state_key(state) ==> r == Some(
                &settings.states@[i].1,
            ),
        forall|j: int|
            0 <= j < settings.states@.len() && keys_unique(settings.states@)
                && #[trigger] settings.states@[j].0@ == "offline"@ && (forall|k: int|
                0 <= k < settings.states@.len() ==> settings.states@[k].0@ != state_key(state))
                ==> r == Some(&settings.states@[j].1),
        (forall|k: int|
            0 <= k < settings.states@.len() ==> settings.states@[k].0@ != state_key(state)
                && settings.states@[k].0@ != "offline"@) ==> r is None,
{
    proof {
        assert forall|j: int|
            0 <= j < settings.states@.len() && keys_unique(settings.states@)
                && #[trigger] settings.states@[j].0@ == "offline"@ implies key_index(
            settings.states@,
            "offline"@,
        ) == j by {
            unique_key_lookup(settings.states@, j);
        }
        if forall|k: int|
            0 <= k < settings.states@.len() ==> settings.states@[k].0@ != state_key(state) {
            lemma_no_key(settings.states@, state_key(state));
        }
        if forall|k: int|
            0 <= k < settings.states@.len() ==> settings.states@[k].0@ != "offline"@ {
            lemma_no_key(settings.states@, "offline"@);
        }
    }
    proof {
        assert forall|i: int|
            0 <= i < settings.states@.len() && keys_unique(settings.states@)
                && #[trigger] settings.states@[i].0@ == state_key(state) implies key_index(
            settings.states@,
            state_key(state),
        ) == i by {
            unique_key_lookup(settings.states@, i);
        }
    }
    match find_key(&settings.states, state.key()) {
        Some(i) => Some(&settings.states[i].1),
        None => {
            match find_key(&settings.states, "offline") {
                Some(i) => Some(&settings.states[i].1),
                None => None,
            }
        },
    }
}

/// Why no presentation could be produced.
#[derive(Debug, Clone, Copy, PartialEq, Eq, Structural)]
pub enum PresentationError {
    /// Neither the state nor `offline` has presentation settings.
    MissingStatePresentation,
}

/// The Server List Ping answer as plain values; the agent serialises it as
/// the status JSON document.
#[derive(Debug, Clone)]
pub struct StatusDocument {
    pub version_name: String,
    pub protocol: i32,
    pub online_players: i32,
    pub max_players: i32,
    pub description: String,
    /// A `data:image/png;base64,` URL.
    pub favicon: String,
}

/// The ASCII byte of a six-bit value in the standard base64 alphabet:
/// `A`-`Z`, `a`-`z`, `0`-`9`, `+` and `/`.
pub open spec fn base64_byte(v: int) -> u8 {
    if v < 26 {
        (65 + v) as u8
    } else if v < 52 {
        (97 + v - 26) as u8
    } else if v < 62 {
        (48 + v - 52) as u8
    } else if v == 62 {
        43
    } else {
        47
    }
}

/// The six-bit value of a byte of the standard base64 alphabet.
pub open spec fn base64_value(c: u8) -> int {
    if 65 <= c <= 90 {
        c - 65
    } else if 97 <= c <= 122 {
        c - 97 + 26
    } else if 48 <= c <= 57 {
        c - 48 + 52
    } else if c == 43 {
        62
    } else {
        63
    }
}

/// The padding byte `=`.
pub open spec fn base64_pad() -> u8 {
    61
}

/// The bytes of the standard, padded base64 text of `b`: each group of three
/// bytes becomes four alphabet bytes of six bits each, most significant
/// first; a final group of one or two bytes is padded with zero bits and `=`.
pub open spec fn base64_code(b: Seq<u8>) -> Seq<u8>
    decreases b.len(),
{
    if b.len() == 0 {
        Seq::empty()
    } else if b.len() == 1 {
        seq![base64_byte(b[0] as int / 4), base64_byte((b[0] % 4) * 16), base64_pad(), base64_pad()]
    } else if b.len() == 2 {
        seq![
            base64_byte(b[0] as int / 4),
            base64_byte((b[0] % 4) * 16 + b[1] / 16),
            base64_byte((b[1] % 16) * 4),
            base64_pad(),
        ]
    } else {
        seq![
            base64_byte(b[0] as int / 4),
            base64_byte((b[0] % 4) * 16 + b[1] / 16),
            base64_byte((b[1] % 16) * 4 + b[2] / 64),
            base64_byte(b[2] as int % 64),
        ] + base64_code(b.skip(3))
    }
}

/// The standard, padded base64 text of a byte sequence.
pub open spec fn base64_standard_encoding(b: Seq<u8>) -> Seq<char> {
    base64_code(b).map_values(|x: u8| x as char)
}

/// Reads base64 bytes back group by group: four bytes give three, or fewer
/// where the group ends in `=`.
pub open spec fn base64_groups(t: Seq<u8>) -> Seq<u8>
    decreases t.len(),
{
    if t.len() < 4 {
        Seq::empty()
    } else {
        let v0 = base64_value(t[0]);
        let v1 = base64_value(t[1]);
        let v2 = base64_value(t[2]);
        let v3 = base64_value(t[3]);
        let first = (v0 * 4 + v1 / 16) as u8;
        if t[2] == base64_pad() {
            seq![first]
        } else if t[3] == base64_pad() {
            seq![first, ((v1 % 16) * 16 + v2 / 4) as u8]
        } else {
            seq![first, ((v1 % 16) * 16 + v2 / 4) as u8, ((v2 % 4) * 64 + v3) as u8]
                + base64_groups(t.skip(4))
        }
    }
}

/// Standard padded base64 decoding: the bytes whose encoding the text is,
/// or `None` when it is the encoding of no bytes.
pub open spec fn base64_standard_decoding(text: Seq<u8>) -> Option<Seq<u8>> {
    if exists|b: Seq<u8>| #[trigger] base64_code(b) == text {
        Some(base64_groups(text))
    } else {
        None
    }
}

proof fn lemma_base64_digit(v: int)
    requires
        0 <= v < 64,
    ensures
        base64_value(base64_byte(v)) == v,
        base64_byte(v) != base64_pad(),
{
}

/// Law: reading the base64 text of any bytes gives the bytes back, so
/// distinct bytes have distinct texts.
pub proof fn base64_round_trip(b: Seq<u8>)
    ensures
        base64_groups(base64_code(b)) == b,
    decreases b.len(),
{
    let t = base64_code(b);
    if b.len() == 0 {
    } else {
        let b0 = b[0];
        lemma_base64_digit(b0 as int / 4);
        if b.len() == 1 {
            lemma_base64_digit((b0 % 4) * 16);
            assert((b0 / 4) * 4 + ((b0 % 4) * 16) / 16 == b0);
            assert(base64_groups(t) =~= b);
        } else {
            let b1 = b[1];
            lemma_base64_digit((b0 % 4) * 16 + b1 / 16);
            assert((b0 / 4) * 4 + ((b0 % 4) * 16 + b1 / 16) / 16 == b0);
            if b.len() == 2 {
                lemma_base64_digit((b1 % 16) * 4);
                assert((((b0 % 4) * 16 + b1 / 16) % 16) * 16 + ((b1 % 16) * 4) / 4 == b1);
                assert(base64_groups(t) =~= b);
            } else {
                let b2 = b[2];
                lemma_base64_digit((b1 % 16) * 4 + b2 / 64);
                lemma_base64_digit(b2 as int % 64);
                assert((((b0 % 4) * 16 + b1 / 16) % 16) * 16 + ((b1 % 16) * 4 + b2 / 64) / 4 == b1);
                assert((((b1 % 16) * 4 + b2 / 64) % 4) * 64 + b2 % 64 == b2);
                base64_round_trip(b.skip(3));
                assert(t.skip(4) =~= base64_code(b.skip(3)));
                assert(base64_groups(t) =~= b);
            }
        }
    }
}

/// `base64::engine::general_purpose::STANDARD.encode`: the result is the
/// standard padded base64 text of the bytes, without line breaks.
/// The call panics when the encoded length overflows `usize`, which the
/// precondition rules out.
#[verifier::external_body]
fn encode_base64(bytes: &[u8]) -> (r: String)
    requires
        bytes@.len() / 3 * 4 + 4 <= usize::MAX,
    ensures
        r@ == base64_standard_encoding(bytes@),
{
    base64::engine::general_purpose::STANDARD.encode(bytes)
}

/// Which description is shown at Unix time `now` (seconds) when descriptions
/// rotate every `interval` seconds among `count` of them.
pub open spec fn rotation_index(now: i64, interval: u64, count: nat) -> int {
    let magnitude: u64 = if now >= 0 {
        now as u64
    } else {
        (-(now as int)) as u64
    };
    let divisor: u64 = if interval >= 1 {
        interval
    } else {
        1
    };
    let slot: usize = (magnitude / divisor) as usize;
    slot as int % (if count >= 1 {
        count as int
    } else {
        1
    })
}

proof fn lemma_normalized_plain(s: Seq<char>)
    requires
        !s.contains('&'),
    ensures
        normalized(s) == s,
    decreases s.len(),
{
    if s.len() > 0 {
        let t = s.drop_first();
        assert(s[0] != '&');
        assert(!t.contains('&')) by {
            if t.contains('&') {
                let k = choose|k: int| 0 <= k < t.len() && t[k] == '&';
                assert(s[k + 1] == '&');
            }
        }
        lemma_normalized_plain(t);
        assert(seq![s[0]] + t =~= s);
    }
}

/// Law: a description without `&` codes or placeholders, with lines left in
/// place, is shown exactly as written, taking the description the rotation
/// points at.
pub proof fn description_shows_rotated_entry(
    settings: GlobalSettings,
    server: SnapshotServer,
    state: ServerState,
    config: MotdStateSettings,
    now: i64,
)
    requires
        !settings.swap_lines,
        forall|i: int|
            0 <= i < config.descriptions@.len() ==> !(#[trigger] config.descriptions@[i]@).contains(
                '&',
            ) && !config.descriptions@[i]@.contains('{'),
    ensures
        config.descriptions@.len() > 0 ==> description_base(settings, server, state, config, now)
            == config.descriptions@[rotation_index(
            now,
            settings.rotation_interval_seconds,
            config.descriptions@.len(),
        )]@,
        config.descriptions@.len() == 0 ==> description_base(settings, server, state, config, now)
            == Seq::<char>::empty(),
{
    let n = config.descriptions@.len();
    let idx = rotation_index(now, settings.rotation_interval_seconds, n);
    if n > 0 {
        let raw = config.descriptions@[idx]@;
        placeholders_filled(raw, server.server_name@, server.node_name@, state);
        lemma_normalized_plain(raw);
    } else {
        placeholders_filled(Seq::<char>::empty(), server.server_name@, server.node_name@, state);
        assert(normalized(Seq::<char>::empty()) == Seq::<char>::empty());
    }
}

/// Law: the shown description rotates. Its index is always one of the
/// descriptions, time zero shows the first, and from a non-negative time,
/// `interval` seconds later shows the next description, wrapping after the
/// last (while the slot number fits a `usize`).
pub proof fn rotation_cycles(now: i64, interval: u64, count: nat)
    requires
        count >= 1,
        interval >= 1,
        now >= 0,
        now + interval <= i64::MAX,
        (now as int) / (interval as int) + 1 <= usize::MAX,
    ensures
        0 <= rotation_index(now, interval, count) < count,
        rotation_index(0, interval, count) == 0,
        rotation_index((now + interval) as i64, interval, count) == (rotation_index(
            now,
            interval,
            count,
        ) + 1) % (count as int),
{
    assert(0u64 / interval == 0);
    assert(0int % (count as int) == 0);
    let m = now as u64;
    let later = (now + interval) as i64;
    let q = (m as int) / (interval as int);
    assert(later as u64 == m + interval);
    assert(((m as int) + (interval as int)) / (interval as int) == q + 1) by (nonlinear_arith)
        requires
            interval >= 1,
            m >= 0,
            q == (m as int) / (interval as int),
    ;
    assert(q >= 0) by (nonlinear_arith)
        requires
            interval >= 1,
            m >= 0,
            q == (m as int) / (interval as int),
    ;
    assert(((q + 1) % (count as int)) == ((q % (count as int)) + 1) % (count as int)) by (
    nonlinear_arith)
        requires
            count >= 1,
            q >= 0,
    ;
}

/// Law: the rotation depends on the time only through its distance from
/// zero, and an interval of zero seconds rotates like one of a second.
pub proof fn rotation_symmetric(now: i64, interval: u64, count: nat)
    requires
        now > i64::MIN,
    ensures
        rotation_index((-now) as i64, interval, count) == rotation_index(now, interval, count),
        rotation_index(now, 0, count) == rotation_index(now, 1, count),
{
}

/// Law: `&` followed by a colour digit `0`-`9`, `a`-`f`, a style `k`-`o`,
/// or `r`, in either case, becomes `§` and the lowercase letter, whatever
/// follows; `&` followed by any other character is kept as it is.
pub proof fn ampersand_codes_rewritten(c: char, rest: Seq<char>)
    ensures
        ('0' <= c <= '9' || 'a' <= c <= 'f' || 'k' <= c <= 'o' || c == 'r') ==> normalized(
            seq!['&', c] + rest,
        ) == seq!['§', c] + normalized(rest),
        ('A' <= c <= 'F' || 'K' <= c <= 'O' || c == 'R') ==> normalized(seq!['&', c] + rest)
            == seq!['§', ((c as int) + 32) as char] + normalized(rest),
        !('0' <= c <= '9' || 'a' <= c <= 'f' || 'k' <= c <= 'o' || c == 'r' || 'A' <= c <= 'F'
            || 'K' <= c <= 'O' || c == 'R') ==> normalized(seq!['&', c] + rest) == seq!['&']
            + normalized(seq![c] + rest),
        c != '&' ==> normalized(seq![c] + rest) == seq![c] + normalized(rest),
        normalized(seq!['&']) == seq!['&'],
        normalized(Seq::<char>::empty()) == Seq::<char>::empty(),
{
    assert((seq![c] + rest).drop_first() =~= rest);
    assert(seq!['&'].drop_first() =~= Seq::<char>::empty());
    assert(normalized(Seq::<char>::empty()) == Seq::<char>::empty());
    assert(normalized(seq!['&']) == seq![seq!['&'][0]] + normalized(seq!['&'].drop_first()));
    assert(seq![seq!['&'][0]] + Seq::<char>::empty() =~= seq!['&']);
    let s = seq!['&', c] + rest;
    assert(s.skip(2) =~= rest);
    assert(s.drop_first() =~= seq![c] + rest);
    assert(s[0] == '&' && s[1] == c);
    if 'A' <= c <= 'Z' {
        assert((((c as u32) + 32) as u8) as char == ((c as int) + 32) as char);
    }
}

/// The MOTD description before any gradient: the rotating description with
/// placeholders and `&` codes resolved, and lines swapped when enabled.
pub open spec fn description_base(
    settings: GlobalSettings,
    server: SnapshotServer,
    state: ServerState,
    config: MotdStateSettings,
    now: i64,
) -> Seq<char> {
    let index = rotation_index(now, settings.rotation_interval_seconds, config.descriptions@.len());
    let raw = if 0 <= index < config.descriptions@.len() {
        config.descriptions@[index]@
    } else {
        Seq::empty()
    };
    let text = normalized(with_placeholders(raw, server.server_name@, server.node_name@, state));
    if settings.swap_lines {
        lines_swapped(text)
    } else {
        text
    }
}

/// The MOTD description: its base text, with the gradient applied when
/// enabled, the `i`-th coloured character taking `shades[i]`.
pub open spec fn description_text(
    settings: GlobalSettings,
    server: SnapshotServer,
    state: ServerState,
    config: MotdStateSettings,
    now: i64,
    shades: Seq<(u8, u8, u8)>,
) -> Seq<char> {
    let base = description_base(settings, server, state, config, now);
    if settings.gradient_enabled {
        gradient_text(base, settings.gradient_colors@, shades)
    } else {
        base
    }
}

/// The shades a status answer needs: enough for the gradient over the base
/// description of the selected presentation, when the gradient is enabled.
pub open spec fn shades_suffice(
    settings: GlobalSettings,
    server: SnapshotServer,
    state: ServerState,
    now: i64,
    shades: Seq<(u8, u8, u8)>,
) -> bool {
    settings.gradient_enabled && selected_index(settings.states@, state) >= 0 ==> shades.len()
        >= gradient_slots(
        description_base(
            settings,
            server,
            state,
            settings.states@[selected_index(settings.states@, state)].1,
            now,
        ),
        settings.gradient_colors@,
    )
}

/// The favicon text: the configured base64 PNG, else the encoding of the
/// built-in icon.
pub open spec fn icon_text(settings: GlobalSettings, default_icon: Seq<u8>) -> Seq<char> {
    match settings.favicon_base64 {
        Some(icon) => icon@,
        None => base64_standard_encoding(default_icon),
    }
}

fn unsigned_magnitude(now: i64) -> (r: u64)
    ensures
        r == (if now >= 0 {
            now as u64
        } else {
            (-(now as int)) as u64
        }),
{
    if now >= 0 {
        now as u64
    } else {
        ((-(now + 1)) as u64) + 1
    }
}

fn base_chars(
    settings: &GlobalSettings,
    server: &SnapshotServer,
    state: ServerState,
    config: &MotdStateSettings,
    now: i64,
) -> (r: Vec<char>)
    ensures
        r@ == description_base(*settings, *server, state, *config, now),
{
    let magnitude = unsigned_magnitude(now);
    let divisor: u64 = if settings.rotation_interval_seconds >= 1 {
        settings.rotation_interval_seconds
    } else {
        1
    };
    let slot: usize = (magnitude / divisor) as usize;
    let count: usize = if config.descriptions.len() >= 1 {
        config.descriptions.len()
    } else {
        1
    };
    let index = slot % count;
    let raw: Vec<char> = if index < config.descriptions.len() {
        chars_of(config.descriptions[index].as_str())
    } else {
        Vec::new()
    };
    let filled = placeholder_chars(&raw, server, state);
    let mut text = normalize_chars(&filled);
    if settings.swap_lines {
        let swapped = swap_lines(string_of(&text));
        text = chars_of(swapped.as_str());
    }
    text
}

/// The base description of the status answer for a server in `state` at
/// Unix time `now`: what a gradient would colour.
pub fn status_description(
    settings: &GlobalSettings,
    server: &SnapshotServer,
    state: ServerState,
    now: i64,
) -> (r: Result<String, PresentationError>)
    ensures
        selected_index(settings.states@, state) < 0 ==> r == Err::<String, PresentationError>(
            PresentationError::MissingStatePresentation,
        ),
        selected_index(settings.states@, state) >= 0 ==> (r matches Ok(text) && text@
            == description_base(
            *settings,
            *server,
            state,
            settings.states@[selected_index(settings.states@, state)].1,
            now,
        )),
{
    let config = match selected_state(settings, state) {
        Some(config) => config,
        None => return Err(PresentationError::MissingStatePresentation),
    };
    let base = base_chars(settings, server, state, config, now);
    Ok(string_of(&base))
}

/// Builds the Server List Ping answer for a server in `state` at Unix time
/// `now` (seconds); `default_icon` is the PNG shown when no favicon is set,
/// and `shades` are the colours of the gradient's coloured characters.
pub fn status_json(
    settings: &GlobalSettings,
    server: &SnapshotServer,
    state: ServerState,
    client_protocol: i32,
    now: i64,
    default_icon: &[u8],
    shades: &[(u8, u8, u8)],
) -> (r: Result<StatusDocument, PresentationError>)
    requires
        settings.gradient_enabled ==> colors_sliceable(settings.gradient_colors@),
        default_icon@.len() / 3 * 4 + 4 <= usize::MAX,
        shades_suffice(*settings, *server, state, now, shades@),
    ensures
        selected_index(settings.states@, state) < 0 ==> r == Err::<StatusDocument, PresentationError>(
            PresentationError::MissingStatePresentation,
        ),
        selected_index(settings.states@, state) >= 0 ==> (r matches Ok(doc) && {
            let config = settings.states@[selected_index(settings.states@, state)].1;
            &&& doc.version_name@ == config.version@
            &&& doc.protocol == match config.protocol {
                Some(p) => p,
                None => client_protocol,
            }
            &&& doc.online_players == config.online_players
            &&& doc.max_players == config.max_players
            &&& doc.description@ == description_text(*settings, *server, state, config, now, shades@)
            &&& doc.favicon@ == "data:image/png;base64,"@ + icon_text(*settings, default_icon@)
        }),
{
    let config = match selected_state(settings, state) {
        Some(config) => config,
        None => return Err(PresentationError::MissingStatePresentation),
    };
    let base = base_chars(settings, server, state, config, now);
    let description = if settings.gradient_enabled {
        let colored = apply_gradient(string_of(&base).as_str(), settings.gradient_colors.as_slice(), shades);
        chars_of(colored.as_str())
    } else {
        base
    };
    let icon = match &settings.favicon_base64 {
        Some(icon) => icon.clone(),
        None => encode_base64(default_icon),
    };
    let mut favicon: Vec<char> = Vec::new();
    push_str(&mut favicon, "data:image/png;base64,");
    push_str(&mut favicon, icon.as_str());
    Ok(StatusDocument {
        version_name: config.version.clone(),
        protocol: match config.protocol {
            Some(p) => p,
            None => client_protocol,
        },
        online_players: config.online_players,
        max_players: config.max_players,
        description: string_of(&description),
        favicon: string_of(&favicon),
    })
}

/// The login disconnect message for a server in `state`.
pub fn kick_message(settings: &GlobalSettings, server: &SnapshotServer, state: ServerState) -> (r:
    Result<String, PresentationError>)
    ensures
        selected_index(settings.states@, state) < 0 ==> r == Err::<String, PresentationError>(
            PresentationError::MissingStatePresentation,
        ),
        selected_index(settings.states@, state) >= 0 ==> (r matches Ok(message) && message@
            == normalized(
            with_placeholders(
                settings.states@[selected_index(settings.states@, state)].1.kick_message@,
                server.server_name@,
                server.node_name@,
                state,
            ),
        )),
{
    let config = match selected_state(settings, state) {
        Some(config) => config,
        None => return Err(PresentationError::MissingStatePresentation),
    };
    let raw = chars_of(config.kick_message.as_str());
    let filled = placeholder_chars(&raw, server, state);
    let out = normalize_chars(&filled);
    Ok(string_of(&out))
}

proof fn lemma_no_newline_first_index(s: Seq<char>)
    requires
        !s.contains('\n'),
    ensures
        first_index(s, '\n') == -1,
{
    if exists|i: int| is_first_index(s, '\n', i) {
        let i = choose|i: int| is_first_index(s, '\n', i);
        assert(s.contains('\n'));
    }
}

proof fn lemma_first_index_found(s: Seq<char>, i: int)
    requires
        0 <= i < s.len(),
        s[i] == '\n',
        forall|j: int| 0 <= j < i ==> s[j] != '\n',
    ensures
        first_index(s, '\n') == i,
{
    crate::text::lemma_first_index(s, '\n', i);
}

proof fn lemma_first_index_facts(s: Seq<char>)
    ensures
        first_index(s, '\n') >= 0 ==> is_first_index(s, '\n', first_index(s, '\n')),
        first_index(s, '\n') < 0 ==> !s.contains('\n'),
{
    if first_index(s, '\n') < 0 {
        if s.contains('\n') {
            let k = choose|k: int| 0 <= k < s.len() && s[k] == '\n';
            assert(exists|i: int| is_first_index(s, '\n', i)) by {
                lemma_exists_first(s, k);
            }
        }
    }
}

proof fn lemma_exists_first(s: Seq<char>, k: int)
    requires
        0 <= k < s.len(),
        s[k] == '\n',
    ensures
        exists|i: int| is_first_index(s, '\n', i),
    decreases k,
{
    if forall|j: int| 0 <= j < k ==> s[j] != '\n' {
        assert(is_first_index(s, '\n', k));
    } else {
        let j = choose|j: int| 0 <= j < k && s[j] == '\n';
        lemma_exists_first(s, j);
    }
}

/// Law: swapping the first two lines twice gives the text back.
pub proof fn swap_lines_involution(s: Seq<char>)
    ensures
        lines_swapped(lines_swapped(s)) == s,
{
    lemma_first_index_facts(s);
    let i = first_index(s, '\n');
    if i < 0 {
        return;
    }
    let first = s.take(i);
    let after = s.skip(i + 1);
    lemma_first_index_facts(after);
    let j = first_index(after, '\n');
    if j < 0 {
        let t = after + seq!['\n'] + first;
        assert(t[after.len() as int] == '\n');
        assert forall|m: int| 0 <= m < after.len() implies t[m] != '\n' by {
            assert(t[m] == after[m]);
            assert(!after.contains('\n'));
            if after[m] == '\n' {
                assert(after.contains('\n'));
            }
        }
        lemma_first_index_found(t, after.len() as int);
        assert(t.take(after.len() as int) =~= after);
        assert(t.skip(after.len() as int + 1) =~= first);
        assert forall|m: int| 0 <= m < first.len() implies first[m] != '\n' by {
            assert(first[m] == s[m]);
        }
        if first.contains('\n') {
            let m = choose|m: int| 0 <= m < first.len() && first[m] == '\n';
            assert(false);
        }
        lemma_no_newline_first_index(first);
        assert(first + seq!['\n'] + after =~= s);
    } else {
        let second = after.take(j);
        let rest = after.skip(j + 1);
        let t = second + seq!['\n'] + first + seq!['\n'] + rest;
        assert(t[second.len() as int] == '\n');
        assert forall|m: int| 0 <= m < second.len() implies t[m] != '\n' by {
            assert(t[m] == after[m]);
        }
        lemma_first_index_found(t, second.len() as int);
        assert(t.take(second.len() as int) =~= second);
        let t_after = t.skip(second.len() as int + 1);
        assert(t_after =~= first + seq!['\n'] + rest);
        assert(t_after[first.len() as int] == '\n');
        assert forall|m: int| 0 <= m < first.len() implies t_after[m] != '\n' by {
            assert(t_after[m] == s[m]);
        }
        lemma_first_index_found(t_after, first.len() as int);
        assert(t_after.take(first.len() as int) =~= first);
        assert(t_after.skip(first.len() as int + 1) =~= rest);
        assert(first + seq!['\n'] + second + seq!['\n'] + rest =~= s);
    }
}

/// `a` occurs in `b` in order, possibly with other characters in between.
pub open spec fn is_subsequence(a: Seq<char>, b: Seq<char>) -> bool
    decreases b.len(),
{
    if a.len() == 0 {
        true
    } else if b.len() == 0 {
        false
    } else if a[0] == b[0] {
        is_subsequence(a.drop_first(), b.drop_first())
    } else {
        is_subsequence(a, b.drop_first())
    }
}

proof fn lemma_subsequence_prepend(a: Seq<char>, b: Seq<char>, p: Seq<char>)
    requires
        is_subsequence(a, b),
    ensures
        is_subsequence(a, p + b),
    decreases p.len(),
{
    if p.len() > 0 {
        lemma_subsequence_prepend(a, b, p.drop_first());
        assert((p + b).drop_first() =~= p.drop_first() + b);
        if a.len() > 0 && a[0] == p[0] {
            lemma_subsequence_drop(a, p.drop_first() + b);
        }
    }
}

proof fn lemma_subsequence_drop(a: Seq<char>, b: Seq<char>)
    requires
        a.len() > 0,
        is_subsequence(a, b),
    ensures
        is_subsequence(a.drop_first(), b),
    decreases b.len(),
{
    if b.len() > 0 && a[0] != b[0] {
        lemma_subsequence_drop(a, b.drop_first());
        if a.drop_first().len() > 0 && a.drop_first()[0] == b[0] {
            lemma_subsequence_drop(a.drop_first(), b.drop_first());
        }
    } else if b.len() > 0 {
        if a.drop_first().len() > 0 && a.drop_first()[0] != b[0] {
        } else if a.drop_first().len() > 0 {
            lemma_subsequence_drop(a.drop_first(), b.drop_first());
        }
    }
}

proof fn lemma_subsequence_cons(c: char, a: Seq<char>, b: Seq<char>)
    requires
        is_subsequence(a, b),
    ensures
        is_subsequence(seq![c] + a, seq![c] + b),
{
    assert((seq![c] + a).drop_first() =~= a);
    assert((seq![c] + b).drop_first() =~= b);
}

proof fn lemma_walk_keeps_text(s: Seq<char>, index: nat, shades: Seq<(u8, u8, u8)>)
    ensures
        is_subsequence(s, gradient_walk(s, index, shades)),
        gradient_walk(s, index, shades).len() == s.len() + 14 * coloured_count(s),
    decreases s.len(),
{
    if s.len() == 0 {
    } else if s[0] == '§' && s.len() >= 2 {
        let rest = s.skip(2);
        lemma_walk_keeps_text(rest, index, shades);
        lemma_subsequence_cons(s[1], rest, gradient_walk(rest, index, shades));
        lemma_subsequence_cons(
            s[0],
            seq![s[1]] + rest,
            seq![s[1]] + gradient_walk(rest, index, shades),
        );
        assert(seq![s[0]] + (seq![s[1]] + rest) =~= s);
        assert(seq![s[0]] + (seq![s[1]] + gradient_walk(rest, index, shades)) =~= s.take(2)
            + gradient_walk(rest, index, shades));
    } else if is_whitespace(s[0]) {
        let rest = s.drop_first();
        lemma_walk_keeps_text(rest, index, shades);
        lemma_subsequence_cons(s[0], rest, gradient_walk(rest, index, shades));
        assert(seq![s[0]] + rest =~= s);
    } else {
        let rest = s.drop_first();
        let code = legacy_hex_chars(shades[index as int]);
        lemma_walk_keeps_text(rest, index + 1, shades);
        lemma_subsequence_cons(s[0], rest, gradient_walk(rest, index + 1, shades));
        assert(seq![s[0]] + rest =~= s);
        lemma_subsequence_prepend(s, seq![s[0]] + gradient_walk(rest, index + 1, shades), code);
        assert(code + (seq![s[0]] + gradient_walk(rest, index + 1, shades)) =~= code + seq![
            s[0],
        ] + gradient_walk(rest, index + 1, shades));
    }
}

/// Law: a gradient only inserts colour codes: the original text occurs in
/// the result, in order, and the result is longer by exactly one
/// fourteen-character code per coloured character.
pub proof fn gradient_keeps_text(s: Seq<char>, colors: Seq<String>, shades: Seq<(u8, u8, u8)>)
    ensures
        is_subsequence(s, gradient_text(s, colors, shades)),
        gradient_text(s, colors, shades).len() == s.len() + 14 * gradient_slots(s, colors),
{
    lemma_subsequence_refl(s);
    if gradient_stops(colors).len() >= 2 {
        lemma_walk_keeps_text(s, 0, shades);
    }
}

proof fn lemma_parsing_colors(colors: Seq<String>)
    ensures
        gradient_stops(parsing_colors(colors)) == gradient_stops(colors),
    decreases colors.len(),
{
    if colors.len() > 0 {
        lemma_parsing_colors(colors.drop_first());
        let p = parsing_colors(colors);
        if color_value(encode_utf8(colors[0]@)) is Some {
            assert(p[0] == colors[0]);
            assert(p.drop_first() =~= parsing_colors(colors.drop_first()));
        }
    }
}

/// Law: colour texts that do not parse play no part: the gradient over
/// `colors` is the gradient over the colours that parse, and text is left
/// unchanged when fewer than two colours parse.
pub proof fn gradient_ignores_unparsed_colors(
    s: Seq<char>,
    colors: Seq<String>,
    shades: Seq<(u8, u8, u8)>,
)
    ensures
        gradient_text(s, colors, shades) == gradient_text(s, parsing_colors(colors), shades),
        gradient_slots(s, colors) == gradient_slots(s, parsing_colors(colors)),
        gradient_stops(colors).len() < 2 ==> gradient_text(s, colors, shades) == s,
{
    lemma_parsing_colors(colors);
}

proof fn lemma_subsequence_refl(s: Seq<char>)
    ensures
        is_subsequence(s, s),
    decreases s.len(),
{
    if s.len() > 0 {
        lemma_subsequence_refl(s.drop_first());
    }
}

/// Law: rewriting `&` codes keeps the number of characters: each rewritten
/// `&` and its code become `§` and the lowercase code.
pub proof fn normalize_keeps_length(s: Seq<char>)
    ensures
        normalized(s).len() == s.len(),
    decreases s.len(),
{
    if s.len() > 0 {
        if s[0] == '&' && s.len() >= 2 && is_format_code(s[1]) {
            normalize_keeps_length(s.skip(2));
        } else {
            normalize_keeps_length(s.drop_first());
        }
    }
}

/// Law: text with no line break is left as it is. Otherwise, writing the
/// text as a first line, a break, a second line and a rest that is empty or
/// starts with a break, the result is the second line, a break, the first
/// line and the rest.
pub proof fn swap_lines_shape(s: Seq<char>, first: Seq<char>, second: Seq<char>, rest: Seq<char>)
    ensures
        !s.contains('\n') ==> lines_swapped(s) == s,
        s == first + seq!['\n'] + second + rest && !first.contains('\n') && !second.contains('\n')
            && (rest.len() == 0 || rest[0] == '\n') ==> lines_swapped(s) == second + seq!['\n']
            + first + rest,
{
    if !s.contains('\n') {
        lemma_no_newline_first_index(s);
    }
    if s == first + seq!['\n'] + second + rest && !first.contains('\n') && !second.contains('\n')
        && (rest.len() == 0 || rest[0] == '\n') {
        let i = first.len() as int;
        assert forall|j: int| 0 <= j < i implies s[j] != '\n' by {
            assert(s[j] == first[j]);
        }
        lemma_first_index_found(s, i);
        assert(s.take(i) =~= first);
        let after = s.skip(i + 1);
        assert(after =~= second + rest);
        if rest.len() == 0 {
            assert(after =~= second);
            lemma_no_newline_first_index(after);
        } else {
            let j = second.len() as int;
            assert forall|k: int| 0 <= k < j implies after[k] != '\n' by {
                assert(after[k] == second[k]);
            }
            lemma_first_index_found(after, j);
            assert(after.take(j) =~= second);
            assert(after.skip(j + 1) =~= rest.drop_first());
            assert(second + seq!['\n'] + first + seq!['\n'] + rest.drop_first() =~= second
                + seq!['\n'] + first + rest);
        }
    }
}

proof fn lemma_normalized_head(t: Seq<char>)
    ensures
        normalized(t).len() == 0 ==> t.len() == 0,
        normalized(t).len() > 0 ==> t.len() > 0 && (normalized(t)[0] == '§' || normalized(t)[0]
            == t[0]),
{
}

/// Law: rewriting `&` codes is idempotent; once normalised, text has no `&`
/// code left to rewrite.
pub proof fn normalize_idempotent(s: Seq<char>)
    ensures
        normalized(normalized(s)) == normalized(s),
    decreases s.len(),
{
    if s.len() == 0 {
        return;
    }
    if s[0] == '&' && s.len() >= 2 && is_format_code(s[1]) {
        let r = s.skip(2);
        let l = ascii_lower(s[1]);
        normalize_idempotent(r);
        let n = normalized(s);
        assert(n == seq!['§', l] + normalized(r));
        assert(n.drop_first() =~= seq![l] + normalized(r));
        assert((seq![l] + normalized(r)).drop_first() =~= normalized(r));
        assert(normalized(seq![l] + normalized(r)) == seq![l] + normalized(normalized(r)));
        assert(normalized(n) =~= n);
    } else {
        let t = s.drop_first();
        normalize_idempotent(t);
        let n = normalized(s);
        assert(n == seq![s[0]] + normalized(t));
        assert(n.drop_first() =~= normalized(t));
        lemma_normalized_head(t);
        if s[0] == '&' && normalized(t).len() > 0 {
            assert(!is_format_code(normalized(t)[0]));
        }
        assert(normalized(n) =~= n);
    }
}

} // verus!
