//! Text codec for the regedit5 registry dialect: a serializer and parser
//! pair whose round trip is proved exact.
//!
//! A registry file is a header line followed by `[key]` sections, each
//! holding `"name"=data` lines.  Value data is written as a quoted string,
//! `str(2):"..."` for expandable strings, `str(7):"..."` for string lists
//! joined by NUL, `dword:` with eight hex digits, `hex:` with comma
//! separated byte pairs, or a bare `-` tombstone.

use vstd::prelude::*;

use crate::error::PrefixError;
use crate::model::{RegistryValue, RegistryValueV, ValueName, ValueNameV};
use crate::store::{EntryV, KeyV, Registry, RegistryEntry, RegistryKey, RegistryV, WineRegistry};
use crate::strutil;

verus! {

/// The header line of the one supported dialect.
pub open spec fn header_text() -> Seq<char> {
    "Windows Registry Editor Version 5.00"@
}

/// Free of line breaks, so the text can stand inside one line.
pub open spec fn clean_text(s: Seq<char>) -> bool {
    forall|i: int| 0 <= i < s.len() ==> #[trigger] s[i] != '\n' && s[i] != '\r'
}

/// The escaped form of one character inside a quoted string.
pub open spec fn escape_char(c: char) -> Seq<char> {
    if c == '\\' {
        seq!['\\', '\\']
    } else if c == '"' {
        seq!['\\', '"']
    } else if c == '\u{0}' {
        seq!['\\', '0']
    } else {
        seq![c]
    }
}

/// The escaped body of a quoted string.
pub open spec fn escape_text(s: Seq<char>) -> Seq<char>
    decreases s.len(),
{
    if s.len() == 0 {
        Seq::empty()
    } else {
        escape_char(s[0]) + escape_text(s.skip(1))
    }
}

/// A quoted string: the escaped body between double quotes.
pub open spec fn quoted_text(s: Seq<char>) -> Seq<char> {
    seq!['"'] + escape_text(s) + seq!['"']
}

/// The character for a hexadecimal digit value.
pub open spec fn hex_digit_char(d: int) -> char {
    if d < 10 {
        strutil::dec_digit_char(d)
    } else if d == 10 {
        'a'
    } else if d == 11 {
        'b'
    } else if d == 12 {
        'c'
    } else if d == 13 {
        'd'
    } else if d == 14 {
        'e'
    } else {
        'f'
    }
}

/// The eight hex digits of a 32-bit integer, most significant first.
pub open spec fn hex8_text(x: u32) -> Seq<char> {
    seq![
        hex_digit_char(((x >> 28) & 0xf) as int),
        hex_digit_char(((x >> 24) & 0xf) as int),
        hex_digit_char(((x >> 20) & 0xf) as int),
        hex_digit_char(((x >> 16) & 0xf) as int),
        hex_digit_char(((x >> 12) & 0xf) as int),
        hex_digit_char(((x >> 8) & 0xf) as int),
        hex_digit_char(((x >> 4) & 0xf) as int),
        hex_digit_char((x & 0xf) as int),
    ]
}

/// The two hex digits of one byte.
pub open spec fn byte_hex_text(b: u8) -> Seq<char> {
    seq![hex_digit_char((b >> 4) as int), hex_digit_char((b & 0xf) as int)]
}

/// Comma-separated hex byte pairs.
pub open spec fn hex_list_text(bs: Seq<u8>) -> Seq<char>
    decreases bs.len(),
{
    if bs.len() == 0 {
        Seq::empty()
    } else if bs.len() == 1 {
        byte_hex_text(bs[0])
    } else {
        byte_hex_text(bs[0]) + seq![','] + hex_list_text(bs.skip(1))
    }
}

/// The items of a string list joined by NUL characters.
pub open spec fn join_nul(v: Seq<Seq<char>>) -> Seq<char>
    decreases v.len(),
{
    if v.len() == 0 {
        Seq::empty()
    } else if v.len() == 1 {
        v[0]
    } else {
        v[0] + seq!['\u{0}'] + join_nul(v.skip(1))
    }
}

/// The data part of a value line.
pub open spec fn value_text(v: RegistryValueV) -> Seq<char> {
    match v {
        RegistryValueV::Str(s) => quoted_text(s),
        RegistryValueV::ExpandStr(s) => "str(2):"@ + quoted_text(s),
        RegistryValueV::MultiStr(m) => "str(7):"@ + quoted_text(join_nul(m)),
        RegistryValueV::Dword(d) => "dword:"@ + hex8_text(d),
        RegistryValueV::Binary(b) => "hex:"@ + hex_list_text(b),
        RegistryValueV::Delete => seq!['-'],
    }
}

/// The name part of a value line: `@` for the default slot, a quoted
/// string otherwise.
pub open spec fn name_text(n: ValueNameV) -> Seq<char> {
    match n {
        ValueNameV::Default => seq!['@'],
        ValueNameV::Named(s) => quoted_text(s),
    }
}

/// One value line.
pub open spec fn entry_line(e: EntryV) -> Seq<char> {
    name_text(e.name) + seq!['='] + value_text(e.value)
}

/// The value lines of a key, in order.
pub open spec fn entry_lines(vs: Seq<EntryV>) -> Seq<Seq<char>>
    decreases vs.len(),
{
    if vs.len() == 0 {
        Seq::empty()
    } else {
        seq![entry_line(vs[0])] + entry_lines(vs.skip(1))
    }
}

/// A live section header line.
pub open spec fn section_line(path: Seq<char>) -> Seq<char> {
    seq!['['] + path + seq![']']
}

/// A tombstone section header line.
pub open spec fn del_section_line(path: Seq<char>) -> Seq<char> {
    seq!['[', '-'] + path + seq![']']
}

/// The lines of one key: a live section, or a tombstone section followed
/// (when the key still carries values) by a live section, then the value
/// lines.
pub open spec fn key_lines(k: KeyV) -> Seq<Seq<char>> {
    if k.deleted {
        if k.values.len() == 0 {
            seq![del_section_line(k.path)]
        } else {
            seq![del_section_line(k.path), section_line(k.path)] + entry_lines(k.values)
        }
    } else {
        seq![section_line(k.path)] + entry_lines(k.values)
    }
}

/// The lines of all keys, in order.
pub open spec fn key_blocks(keys: Seq<KeyV>) -> Seq<Seq<char>>
    decreases keys.len(),
{
    if keys.len() == 0 {
        Seq::empty()
    } else {
        key_lines(keys[0]) + key_blocks(keys.skip(1))
    }
}

/// Every line of the serialized registry.
pub open spec fn registry_lines(r: RegistryV) -> Seq<Seq<char>> {
    seq![header_text()] + key_blocks(r.keys)
}

/// Lines joined into one text, each terminated by a newline.
pub open spec fn join_lines(ls: Seq<Seq<char>>) -> Seq<char>
    decreases ls.len(),
{
    if ls.len() == 0 {
        Seq::empty()
    } else {
        ls[0] + seq!['\n'] + join_lines(ls.skip(1))
    }
}

/// The serialized text of a registry.
pub open spec fn registry_text(r: RegistryV) -> Seq<char> {
    join_lines(registry_lines(r))
}

/// Joining distributes over concatenation of line lists.
pub proof fn lemma_join_lines_add(a: Seq<Seq<char>>, b: Seq<Seq<char>>)
    ensures
        join_lines(a + b) == join_lines(a) + join_lines(b),
    decreases a.len(),
{
    if a.len() == 0 {
        assert(a + b =~= b);
        assert(join_lines(a) + join_lines(b) =~= join_lines(b));
    } else {
        lemma_join_lines_add(a.skip(1), b);
        assert((a + b).skip(1) =~= a.skip(1) + b);
        assert((a + b)[0] == a[0]);
        assert(a[0] + seq!['\n'] + (join_lines(a.skip(1)) + join_lines(b)) =~= (a[0] + seq!['\n']
            + join_lines(a.skip(1))) + join_lines(b));
    }
}

/// Joining a single line appends just that line and its newline.
pub proof fn lemma_join_one(l: Seq<char>)
    ensures
        join_lines(seq![l]) == l + seq!['\n'],
{
    assert(seq![l].skip(1) =~= Seq::<Seq<char>>::empty());
    assert(join_lines(seq![l].skip(1)) =~= Seq::<char>::empty());
    assert(join_lines(seq![l]) =~= l + seq!['\n']);
}

/// Joining two lines appends both with their newlines.
pub proof fn lemma_join_two(a: Seq<char>, b: Seq<char>)
    ensures
        join_lines(seq![a, b]) == a + seq!['\n'] + b + seq!['\n'],
{
    assert(seq![a, b].skip(1) =~= seq![b]);
    lemma_join_one(b);
    assert(join_lines(seq![a, b]) =~= a + seq!['\n'] + b + seq!['\n']);
}

/// Key blocks distribute over appending one key.
pub proof fn lemma_key_blocks_snoc(keys: Seq<KeyV>, k: KeyV)
    ensures
        key_blocks(keys.push(k)) == key_blocks(keys) + key_lines(k),
    decreases keys.len(),
{
    if keys.len() == 0 {
        assert(keys.push(k)[0] == k);
        assert(keys.push(k).skip(1) =~= Seq::<KeyV>::empty());
        assert(key_blocks(keys.push(k).skip(1)) =~= Seq::<Seq<char>>::empty());
        assert(key_blocks(keys.push(k)) == key_lines(k) + key_blocks(keys.push(k).skip(1)));
        assert(key_blocks(keys.push(k)) =~= key_lines(k));
        assert(key_blocks(keys) + key_lines(k) =~= key_lines(k));
    } else {
        lemma_key_blocks_snoc(keys.skip(1), k);
        assert(keys.push(k).skip(1) =~= keys.skip(1).push(k));
        assert(keys.push(k)[0] == keys[0]);
        assert(key_lines(keys[0]) + (key_blocks(keys.skip(1)) + key_lines(k)) =~= (key_lines(
            keys[0],
        ) + key_blocks(keys.skip(1))) + key_lines(k));
    }
}

/// Appends the escaped body of `s` to `out`.
fn append_escaped(out: &mut Vec<char>, s: &Vec<char>)
    ensures
        final(out)@ == old(out)@ + escape_text(s@),
{
    let ghost start = out@;
    let mut i: usize = 0;
    proof {
        assert(s@.skip(0) =~= s@);
    }
    while i < s.len()
        invariant
            i <= s@.len(),
            out@ + escape_text(s@.skip(i as int)) == start + escape_text(s@),
        decreases s@.len() - i,
    {
        let c = s[i];
        let ghost before = out@;
        if c == '\\' {
            out.push('\\');
            out.push('\\');
        } else if c == '"' {
            out.push('\\');
            out.push('"');
        } else if c == '\u{0}' {
            out.push('\\');
            out.push('0');
        } else {
            out.push(c);
        }
        i = i + 1;
        proof {
            let rest = s@.skip(i - 1);
            assert(rest[0] == s@[i - 1]);
            assert(rest.skip(1) =~= s@.skip(i as int));
            assert(escape_text(rest) == escape_char(s@[i - 1]) + escape_text(s@.skip(i as int)));
            assert(out@ =~= before + escape_char(s@[i - 1]));
            assert(out@ + escape_text(s@.skip(i as int)) =~= before + escape_text(rest));
        }
    }
    proof {
        assert(s@.skip(s@.len() as int) =~= Seq::<char>::empty());
        assert(escape_text(Seq::<char>::empty()) =~= Seq::<char>::empty());
        assert(out@ =~= out@ + escape_text(s@.skip(s@.len() as int)));
    }
}

/// Appends a quoted string to `out`.
fn append_quoted(out: &mut Vec<char>, s: &Vec<char>)
    ensures
        final(out)@ == old(out)@ + quoted_text(s@),
{
    out.push('"');
    append_escaped(out, s);
    out.push('"');
    proof {
        assert(out@ =~= old(out)@ + quoted_text(s@));
    }
}

/// The character for one hexadecimal digit value.
fn hex_digit(d: u32) -> (r: char)
    requires
        d < 16,
    ensures
        r == hex_digit_char(d as int),
{
    match d {
        0 => '0',
        1 => '1',
        2 => '2',
        3 => '3',
        4 => '4',
        5 => '5',
        6 => '6',
        7 => '7',
        8 => '8',
        9 => '9',
        10 => 'a',
        11 => 'b',
        12 => 'c',
        13 => 'd',
        14 => 'e',
        _ => 'f',
    }
}

/// Appends the eight hex digits of a 32-bit integer.
fn append_hex8(out: &mut Vec<char>, x: u32)
    ensures
        final(out)@ == old(out)@ + hex8_text(x),
{
    proof {
        assert((x >> 28) & 0xf < 16 && (x >> 24) & 0xf < 16 && (x >> 20) & 0xf < 16 && (x >> 16)
            & 0xf < 16 && (x >> 12) & 0xf < 16 && (x >> 8) & 0xf < 16 && (x >> 4) & 0xf < 16 && x
            & 0xf < 16) by (bit_vector);
    }
    out.push(hex_digit((x >> 28) & 0xf));
    out.push(hex_digit((x >> 24) & 0xf));
    out.push(hex_digit((x >> 20) & 0xf));
    out.push(hex_digit((x >> 16) & 0xf));
    out.push(hex_digit((x >> 12) & 0xf));
    out.push(hex_digit((x >> 8) & 0xf));
    out.push(hex_digit((x >> 4) & 0xf));
    out.push(hex_digit(x & 0xf));
    proof {
        assert(out@ =~= old(out)@ + hex8_text(x));
    }
}

/// Appends the comma-separated hex pairs of a byte string.
fn append_hex_list(out: &mut Vec<char>, bs: &Vec<u8>)
    ensures
        final(out)@ == old(out)@ + hex_list_text(bs@),
{
    let ghost start = out@;
    let mut i: usize = 0;
    proof {
        assert(bs@.skip(0) =~= bs@);
    }
    while i < bs.len()
        invariant
            i <= bs@.len(),
            out@ + hex_list_text(bs@.skip(i as int)) == start + hex_list_text(bs@),
        decreases bs@.len() - i,
    {
        let b = bs[i];
        let ghost before = out@;
        let hi: u32 = (b >> 4) as u32;
        let lo: u32 = (b & 0xf) as u32;
        proof {
            assert(b >> 4 < 16 && b & 0xf < 16) by (bit_vector);
        }
        out.push(hex_digit(hi));
        out.push(hex_digit(lo));
        if i + 1 < bs.len() {
            out.push(',');
        }
        i = i + 1;
        proof {
            let rest = bs@.skip(i - 1);
            assert(rest[0] == bs@[i - 1]);
            assert(rest.skip(1) =~= bs@.skip(i as int));
            assert(hi == (bs@[i - 1] >> 4) as u32 && lo == (bs@[i - 1] & 0xf) as u32);
            if i < bs@.len() {
                assert(rest.len() > 1);
                assert(hex_list_text(rest) == byte_hex_text(bs@[i - 1]) + seq![',']
                    + hex_list_text(bs@.skip(i as int)));
                assert(out@ =~= before + byte_hex_text(bs@[i - 1]) + seq![',']);
                assert(out@ + hex_list_text(bs@.skip(i as int)) =~= before + hex_list_text(rest));
            } else {
                assert(rest.len() == 1);
                assert(hex_list_text(rest) == byte_hex_text(bs@[i - 1]));
                assert(out@ =~= before + byte_hex_text(bs@[i - 1]));
                assert(bs@.skip(i as int) =~= Seq::<u8>::empty());
                assert(out@ + hex_list_text(bs@.skip(i as int)) =~= before + hex_list_text(rest));
            }
        }
    }
    proof {
        assert(bs@.skip(bs@.len() as int) =~= Seq::<u8>::empty());
        assert(out@ =~= out@ + hex_list_text(bs@.skip(bs@.len() as int)));
    }
}

/// Appends the characters of a literal.
fn append_lit(out: &mut Vec<char>, s: &str)
    ensures
        final(out)@ == old(out)@ + s@,
{
    let chars = strutil::str_to_chars(s);
    let mut i: usize = 0;
    while i < chars.len()
        invariant
            i <= chars@.len(),
            chars@ == s@,
            out@ == old(out)@ + s@.subrange(0, i as int),
        decreases chars@.len() - i,
    {
        out.push(chars[i]);
        i = i + 1;
        proof {
            assert(out@ =~= old(out)@ + s@.subrange(0, i as int));
        }
    }
    proof {
        assert(s@.subrange(0, s@.len() as int) =~= s@);
    }
}

/// Appends the data part of one value.
fn append_value(out: &mut Vec<char>, v: &RegistryValue)
    ensures
        final(out)@ == old(out)@ + value_text(v@),
{
    match v {
        RegistryValue::Str(s) => {
            let chars = strutil::str_to_chars(s.as_str());
            append_quoted(out, &chars);
        },
        RegistryValue::ExpandStr(s) => {
            append_lit(out, "str(2):");
            let chars = strutil::str_to_chars(s.as_str());
            append_quoted(out, &chars);
            proof {
                assert(out@ =~= old(out)@ + value_text(v@));
            }
        },
        RegistryValue::MultiStr(m) => {
            append_lit(out, "str(7):");
            let mut joined: Vec<char> = Vec::new();
            let ghost items = v@->MultiStr_0;
            let mut i: usize = 0;
            proof {
                assert(items.skip(0) =~= items);
                assert(items.len() == m@.len());
            }
            while i < m.len()
                invariant
                    i <= m@.len(),
                    items == Seq::new(m@.len(), |t: int| m@[t]@),
                    items.len() == m@.len(),
                    joined@ + join_nul(items.skip(i as int)) == join_nul(items),
                decreases m@.len() - i,
            {
                let ghost before = joined@;
                let item = strutil::str_to_chars(m[i].as_str());
                let mut j: usize = 0;
                while j < item.len()
                    invariant
                        i < m@.len(),
                        items.len() == m@.len(),
                        item@ == items[i as int],
                        j <= item@.len(),
                        joined@ == before + item@.subrange(0, j as int),
                    decreases item@.len() - j,
                {
                    joined.push(item[j]);
                    j = j + 1;
                    proof {
                        assert(joined@ =~= before + item@.subrange(0, j as int));
                    }
                }
                proof {
                    assert(item@.subrange(0, item@.len() as int) =~= item@);
                    assert(joined@ == before + items[i as int]);
                }
                if i + 1 < m.len() {
                    joined.push('\u{0}');
                }
                i = i + 1;
                proof {
                    let rest = items.skip(i - 1);
                    assert(rest[0] == items[i - 1]);
                    assert(rest.skip(1) =~= items.skip(i as int));
                    if i < items.len() {
                        assert(rest.len() > 1);
                        assert(join_nul(rest) == items[i - 1] + seq!['\u{0}'] + join_nul(
                            rest.skip(1),
                        ));
                        assert(joined@ =~= before + items[i - 1] + seq!['\u{0}']);
                        assert(joined@ + join_nul(items.skip(i as int)) =~= before + join_nul(
                            rest,
                        ));
                    } else {
                        assert(rest.len() == 1);
                        assert(join_nul(rest) == items[i - 1]);
                        assert(items.skip(i as int) =~= Seq::<Seq<char>>::empty());
                        assert(joined@ + join_nul(items.skip(i as int)) =~= before + join_nul(
                            rest,
                        ));
                    }
                }
            }
            proof {
                assert(items.skip(items.len() as int) =~= Seq::<Seq<char>>::empty());
                assert(joined@ =~= join_nul(items));
            }
            append_quoted(out, &joined);
            proof {
                assert(out@ =~= old(out)@ + value_text(v@));
            }
        },
        RegistryValue::Dword(d) => {
            append_lit(out, "dword:");
            append_hex8(out, *d);
            proof {
                assert(out@ =~= old(out)@ + value_text(v@));
            }
        },
        RegistryValue::Binary(b) => {
            append_lit(out, "hex:");
            append_hex_list(out, b);
            proof {
                assert(out@ =~= old(out)@ + value_text(v@));
            }
        },
        RegistryValue::Delete => {
            out.push('-');
            proof {
                assert(out@ =~= old(out)@ + value_text(v@));
            }
        },
    }
}

/// Appends one value line with its newline.
fn append_entry_line(out: &mut Vec<char>, e: &RegistryEntry)
    ensures
        final(out)@ == old(out)@ + entry_line(e@) + seq!['\n'],
{
    match &e.name {
        ValueName::Default => {
            out.push('@');
        },
        ValueName::Named(s) => {
            let chars = strutil::str_to_chars(s.as_str());
            append_quoted(out, &chars);
        },
    }
    out.push('=');
    append_value(out, &e.value);
    out.push('\n');
    proof {
        assert(out@ =~= old(out)@ + entry_line(e@) + seq!['\n']);
    }
}

/// Appends the lines of one key, each with its newline.
fn append_key(out: &mut Vec<char>, k: &RegistryKey)
    ensures
        final(out)@ == old(out)@ + join_lines(key_lines(k@)),
{
    let path = strutil::str_to_chars(k.path.as_str());
    if k.deleted {
        out.push('[');
        out.push('-');
        let mut t: usize = 0;
        while t < path.len()
            invariant
                t <= path@.len(),
                path@ == k.path@,
                out@ == old(out)@ + seq!['[', '-'] + path@.subrange(0, t as int),
            decreases path@.len() - t,
        {
            out.push(path[t]);
            t = t + 1;
            proof {
                assert(out@ =~= old(out)@ + seq!['[', '-'] + path@.subrange(0, t as int));
            }
        }
        out.push(']');
        out.push('\n');
        proof {
            assert(path@.subrange(0, path@.len() as int) =~= path@);
            assert(out@ =~= old(out)@ + del_section_line(k.path@) + seq!['\n']);
        }
        if k.values.len() == 0 {
            proof {
                assert(k@.values.len() == k.values@.len());
                assert(key_lines(k@) == seq![del_section_line(k.path@)]);
                lemma_join_one(del_section_line(k.path@));
                assert(out@ =~= old(out)@ + join_lines(key_lines(k@)));
            }
            return ;
        }
    }
    let ghost mark = out@;
    out.push('[');
    let mut t: usize = 0;
    while t < path.len()
        invariant
            t <= path@.len(),
            path@ == k.path@,
            out@ == mark + seq!['['] + path@.subrange(0, t as int),
        decreases path@.len() - t,
    {
        out.push(path[t]);
        t = t + 1;
        proof {
            assert(out@ =~= mark + seq!['['] + path@.subrange(0, t as int));
        }
    }
    out.push(']');
    out.push('\n');
    proof {
        assert(path@.subrange(0, path@.len() as int) =~= path@);
        assert(out@ =~= mark + section_line(k.path@) + seq!['\n']);
    }
    let ghost mark2 = out@;
    let ghost vs = k@.values;
    let mut i: usize = 0;
    proof {
        assert(vs.skip(0) =~= vs);
        assert(join_lines(entry_lines(vs.skip(0))) =~= join_lines(entry_lines(vs)));
    }
    while i < k.values.len()
        invariant
            i <= k.values@.len(),
            vs == k@.values,
            vs.len() == k.values@.len(),
            out@ + join_lines(entry_lines(vs.skip(i as int))) == mark2 + join_lines(
                entry_lines(vs),
            ),
        decreases k.values@.len() - i,
    {
        let ghost before = out@;
        append_entry_line(out, &k.values[i]);
        proof {
            assert(k.values@[i as int]@ == vs[i as int]);
        }
        i = i + 1;
        proof {
            let rest = vs.skip(i - 1);
            assert(rest[0] == vs[i - 1]);
            assert(rest.skip(1) =~= vs.skip(i as int));
            assert(entry_lines(rest) == seq![entry_line(vs[i - 1])] + entry_lines(
                vs.skip(i as int),
            ));
            lemma_join_lines_add(seq![entry_line(vs[i - 1])], entry_lines(vs.skip(i as int)));
            lemma_join_one(entry_line(vs[i - 1]));
            assert(out@ =~= before + entry_line(vs[i - 1]) + seq!['\n']);
            assert(out@ + join_lines(entry_lines(vs.skip(i as int))) =~= before + join_lines(
                entry_lines(rest),
            ));
        }
    }
    proof {
        assert(vs.skip(vs.len() as int) =~= Seq::<EntryV>::empty());
        assert(join_lines(entry_lines(vs.skip(vs.len() as int))) =~= Seq::<char>::empty());
        assert(out@ =~= out@ + join_lines(entry_lines(vs.skip(vs.len() as int))));
        // Stitch the section header and the entry lines back together.
        assert(k@.values == vs);
        if k.deleted {
            assert(k@.values.len() == k.values@.len());
            assert(k@.values.len() > 0);
            assert(key_lines(k@) == seq![del_section_line(k.path@), section_line(k.path@)]
                + entry_lines(vs));
            lemma_join_lines_add(
                seq![del_section_line(k.path@), section_line(k.path@)],
                entry_lines(vs),
            );
            lemma_join_two(del_section_line(k.path@), section_line(k.path@));
            assert(out@ =~= old(out)@ + join_lines(key_lines(k@)));
        } else {
            assert(key_lines(k@) == seq![section_line(k.path@)] + entry_lines(vs));
            lemma_join_lines_add(seq![section_line(k.path@)], entry_lines(vs));
            lemma_join_one(section_line(k.path@));
            assert(out@ =~= old(out)@ + join_lines(key_lines(k@)));
        }
    }
}

// ------------------------------------------------------------------
// Parsing
// ------------------------------------------------------------------
/// Parser state: finished keys, and the key whose section is open.
#[verifier::ext_equal]
pub struct ParseState {
    pub done: Seq<KeyV>,
    pub current: Option<KeyV>,
}

/// A line with a trailing carriage return removed.
pub open spec fn strip_cr(l: Seq<char>) -> Seq<char> {
    if l.len() > 0 && l.last() == '\r' {
        l.drop_last()
    } else {
        l
    }
}

/// The characters before the first newline.
pub open spec fn take_line(s: Seq<char>) -> Seq<char>
    decreases s.len(),
{
    if s.len() == 0 {
        Seq::empty()
    } else if s[0] == '\n' {
        Seq::empty()
    } else {
        seq![s[0]] + take_line(s.skip(1))
    }
}

/// The characters after the first newline (empty when there is none).
pub open spec fn rest_after_line(s: Seq<char>) -> Seq<char>
    decreases s.len(),
{
    if s.len() == 0 {
        Seq::empty()
    } else if s[0] == '\n' {
        s.skip(1)
    } else {
        rest_after_line(s.skip(1))
    }
}

/// Consuming a line shortens the text.
pub proof fn lemma_rest_after_line_shorter(s: Seq<char>)
    requires
        s.len() > 0,
    ensures
        rest_after_line(s).len() < s.len(),
    decreases s.len(),
{
    if s[0] != '\n' {
        assert(rest_after_line(s) == rest_after_line(s.skip(1)));
        assert(s.skip(1).len() == s.len() - 1);
        if s.len() > 1 {
            lemma_rest_after_line_shorter(s.skip(1));
        } else {
            assert(s.skip(1) =~= Seq::<char>::empty());
            assert(rest_after_line(s.skip(1)) == Seq::<char>::empty());
        }
    }
}

/// What a backslash escape decodes to.
pub open spec fn unescape_char(c: char) -> Option<char> {
    if c == '\\' {
        Some('\\')
    } else if c == '"' {
        Some('"')
    } else if c == '0' {
        Some('\u{0}')
    } else {
        None
    }
}

/// Reads a quoted string body starting at `i`, up to and including the
/// closing quote; yields the decoded content and the position after the
/// quote.
pub open spec fn parse_quoted(l: Seq<char>, i: int) -> Option<(Seq<char>, int)>
    decreases l.len() - i,
{
    if i < 0 || i >= l.len() {
        None
    } else if l[i] == '"' {
        Some((Seq::empty(), i + 1))
    } else if l[i] == '\\' {
        if i + 1 >= l.len() {
            None
        } else {
            match unescape_char(l[i + 1]) {
                Some(c) => match parse_quoted(l, i + 2) {
                    Some((rest, j)) => Some((seq![c] + rest, j)),
                    None => None,
                },
                None => None,
            }
        }
    } else {
        match parse_quoted(l, i + 1) {
            Some((rest, j)) => Some((seq![l[i]] + rest, j)),
            None => None,
        }
    }
}

/// The value of a hexadecimal digit character, lowercase or uppercase.
pub open spec fn hex_val(c: char) -> Option<int> {
    if strutil::is_dec_digit(c) {
        Some(strutil::dec_digit_val(c))
    } else if 'a' <= c && c <= 'f' {
        Some(c as int - 'a' as int + 10)
    } else if 'A' <= c && c <= 'F' {
        Some(c as int - 'A' as int + 10)
    } else {
        None
    }
}

/// Whether every character of `s` is a hexadecimal digit.
pub open spec fn all_hex(s: Seq<char>) -> bool {
    forall|i: int| 0 <= i < s.len() ==> (#[trigger] hex_val(s[i])) is Some
}

/// The value of a string of hexadecimal digits.
pub open spec fn hex_seq_val(s: Seq<char>) -> int
    decreases s.len(),
{
    if s.len() == 0 {
        0
    } else {
        hex_seq_val(s.drop_last()) * 16 + (match hex_val(s.last()) {
            Some(d) => d,
            None => 0,
        })
    }
}

/// Whether `s` contains a NUL character.
pub open spec fn contains_nul(s: Seq<char>) -> bool {
    exists|i: int| 0 <= i < s.len() && #[trigger] s[i] == '\u{0}'
}

/// The characters before the first NUL.
pub open spec fn take_to_nul(s: Seq<char>) -> Seq<char>
    decreases s.len(),
{
    if s.len() == 0 {
        Seq::empty()
    } else if s[0] == '\u{0}' {
        Seq::empty()
    } else {
        seq![s[0]] + take_to_nul(s.skip(1))
    }
}

/// The characters after the first NUL.
pub open spec fn rest_after_nul(s: Seq<char>) -> Seq<char>
    decreases s.len(),
{
    if s.len() == 0 {
        Seq::empty()
    } else if s[0] == '\u{0}' {
        s.skip(1)
    } else {
        rest_after_nul(s.skip(1))
    }
}

/// Consuming a NUL-terminated segment shortens the text.
pub proof fn lemma_rest_after_nul_shorter(s: Seq<char>)
    requires
        s.len() > 0,
    ensures
        rest_after_nul(s).len() < s.len(),
    decreases s.len(),
{
    if s[0] != '\u{0}' {
        assert(rest_after_nul(s) == rest_after_nul(s.skip(1)));
        assert(s.skip(1).len() == s.len() - 1);
        if s.len() > 1 {
            lemma_rest_after_nul_shorter(s.skip(1));
        } else {
            assert(s.skip(1) =~= Seq::<char>::empty());
            assert(rest_after_nul(s.skip(1)) == Seq::<char>::empty());
        }
    }
}

/// A nonempty string split at its NUL separators.
pub open spec fn split_nul(s: Seq<char>) -> Seq<Seq<char>>
    decreases s.len(),
    via split_nul_decreases
{
    if !contains_nul(s) {
        seq![s]
    } else {
        seq![take_to_nul(s)] + split_nul(rest_after_nul(s))
    }
}

#[via_fn]
proof fn split_nul_decreases(s: Seq<char>) {
    if contains_nul(s) {
        lemma_rest_after_nul_shorter(s);
    }
}

/// The string list encoded by a `str(7)` body: empty content stands for
/// the empty list.
pub open spec fn multi_of_content(s: Seq<char>) -> Seq<Seq<char>> {
    if s.len() == 0 {
        Seq::empty()
    } else {
        split_nul(s)
    }
}

/// Comma-separated hex byte pairs, parsed.
pub open spec fn parse_hex_list(d: Seq<char>) -> Option<Seq<u8>>
    decreases d.len(),
{
    if d.len() == 0 {
        Some(Seq::empty())
    } else if d.len() >= 2 && hex_val(d[0]) is Some && hex_val(d[1]) is Some {
        let b = (hex_val(d[0])->Some_0 * 16 + hex_val(d[1])->Some_0) as u8;
        if d.len() == 2 {
            Some(seq![b])
        } else if d[2] == ',' {
            match parse_hex_list(d.skip(3)) {
                Some(r) => Some(seq![b] + r),
                None => None,
            }
        } else {
            None
        }
    } else {
        None
    }
}

/// The data part of a value line, parsed.
pub open spec fn parse_data(d: Seq<char>) -> Option<RegistryValueV> {
    if d == seq!['-'] {
        Some(RegistryValueV::Delete)
    } else if d.len() >= 1 && d[0] == '"' {
        match parse_quoted(d, 1) {
            Some((s, j)) => if j == d.len() {
                Some(RegistryValueV::Str(s))
            } else {
                None
            },
            None => None,
        }
    } else if d.len() >= 8 && d.subrange(0, 8) == "str(2):\""@ {
        match parse_quoted(d, 8) {
            Some((s, j)) => if j == d.len() {
                Some(RegistryValueV::ExpandStr(s))
            } else {
                None
            },
            None => None,
        }
    } else if d.len() >= 8 && d.subrange(0, 8) == "str(7):\""@ {
        match parse_quoted(d, 8) {
            Some((s, j)) => if j == d.len() {
                Some(RegistryValueV::MultiStr(multi_of_content(s)))
            } else {
                None
            },
            None => None,
        }
    } else if d.len() == 14 && d.subrange(0, 6) == "dword:"@ && all_hex(d.skip(6)) {
        Some(RegistryValueV::Dword(hex_seq_val(d.skip(6)) as u32))
    } else if d.len() >= 4 && d.subrange(0, 4) == "hex:"@ {
        match parse_hex_list(d.skip(4)) {
            Some(bs) => Some(RegistryValueV::Binary(bs)),
            None => None,
        }
    } else {
        None
    }
}

/// A whole value line, parsed into a slot name and a value.
pub open spec fn parse_value_line(l: Seq<char>) -> Option<(ValueNameV, RegistryValueV)> {
    if l.len() >= 1 && l[0] == '@' {
        if l.len() >= 2 && l[1] == '=' {
            match parse_data(l.skip(2)) {
                Some(v) => Some((ValueNameV::Default, v)),
                None => None,
            }
        } else {
            None
        }
    } else if l.len() >= 1 && l[0] == '"' {
        match parse_quoted(l, 1) {
            Some((nm, j)) => if j < l.len() && l[j] == '=' {
                match parse_data(l.skip(j + 1)) {
                    Some(v) => Some((ValueNameV::Named(nm), v)),
                    None => None,
                }
            } else {
                None
            },
            None => None,
        }
    } else {
        None
    }
}

/// A section header line, parsed into a key path and a deletion flag.
pub open spec fn parse_section_line(l: Seq<char>) -> Option<(Seq<char>, bool)> {
    if l.len() < 3 || l.last() != ']' {
        None
    } else {
        let deleted = l[1] == '-';
        let start: int = if deleted {
            2
        } else {
            1
        };
        let path = l.subrange(start, l.len() - 1);
        if path.len() == 0 {
            None
        } else {
            Some((path, deleted))
        }
    }
}

/// The state with the open section, if any, pushed onto the finished keys.
pub open spec fn push_current(st: ParseState) -> ParseState {
    match st.current {
        Some(k) => ParseState { done: st.done.push(k), current: None },
        None => st,
    }
}

/// Whether a finished key with the given path exists.
pub open spec fn done_has(done: Seq<KeyV>, path: Seq<char>) -> bool {
    exists|i: int| 0 <= i < done.len() && (#[trigger] done[i]).path == path
}

/// The keys a fully processed state stands for.
pub open spec fn finish_state(st: ParseState) -> Seq<KeyV> {
    match st.current {
        Some(k) => st.done.push(k),
        None => st.done,
    }
}

/// Processes one line.  Blank lines and `;` comments are skipped; a
/// section header opens a key (a live section directly after its own
/// tombstone reopens it, as the replace convention writes); a value line
/// fills the open key, tombstone lines erasing the slot instead.
/// Duplicate keys and duplicate value names are malformed.
pub open spec fn parse_line_step(st: ParseState, l: Seq<char>) -> Option<ParseState> {
    if l.len() == 0 {
        Some(st)
    } else if l[0] == ';' {
        Some(st)
    } else if l[0] == '[' {
        match parse_section_line(l) {
            Some((path, deleted)) => if deleted {
                let st2 = push_current(st);
                if done_has(st2.done, path) {
                    None
                } else {
                    Some(
                        ParseState {
                            done: st2.done,
                            current: Some(KeyV { path, deleted: true, values: Seq::empty() }),
                        },
                    )
                }
            } else {
                if st.current matches Some(k) && k.path == path && k.deleted && k.values.len()
                    == 0 {
                    Some(st)
                } else {
                    let st2 = push_current(st);
                    if done_has(st2.done, path) {
                        None
                    } else {
                        Some(
                            ParseState {
                                done: st2.done,
                                current: Some(
                                    KeyV { path, deleted: false, values: Seq::empty() },
                                ),
                            },
                        )
                    }
                }
            },
            None => None,
        }
    } else {
        match st.current {
            Some(k) => match parse_value_line(l) {
                Some((name, value)) => if value is Delete {
                    Some(
                        ParseState {
                            done: st.done,
                            current: Some(
                                KeyV {
                                    values: k.values.filter(|e: EntryV| e.name != name),
                                    ..k
                                },
                            ),
                        },
                    )
                } else {
                    if k.has_slot(name) {
                        None
                    } else {
                        Some(
                            ParseState {
                                done: st.done,
                                current: Some(
                                    KeyV { values: k.values.push(EntryV { name, value }), ..k },
                                ),
                            },
                        )
                    }
                },
                None => None,
            },
            None => None,
        }
    }
}

/// Processes every line of the remaining text.
pub open spec fn parse_run(s: Seq<char>, st: ParseState) -> Option<ParseState>
    decreases s.len(),
    via parse_run_decreases
{
    if s.len() == 0 {
        Some(st)
    } else {
        match parse_line_step(st, strip_cr(take_line(s))) {
            Some(st2) => parse_run(rest_after_line(s), st2),
            None => None,
        }
    }
}

#[via_fn]
proof fn parse_run_decreases(s: Seq<char>, st: ParseState) {
    if s.len() > 0 {
        lemma_rest_after_line_shorter(s);
    }
}

/// What a whole registry text parses to: the header line followed by the
/// keys of the processed body.
pub open spec fn spec_parse(s: Seq<char>) -> Option<Seq<KeyV>> {
    if s.len() == 0 || strip_cr(take_line(s)) != header_text() {
        None
    } else {
        match parse_run(rest_after_line(s), ParseState { done: Seq::empty(), current: None }) {
            Some(st) => Some(finish_state(st)),
            None => None,
        }
    }
}

/// Characterizes the first line of a text by the position of its first
/// newline.
pub proof fn lemma_take_line_at(s: Seq<char>, k: int)
    requires
        0 <= k <= s.len(),
        forall|t: int| 0 <= t < k ==> s[t] != '\n',
        k == s.len() || s[k] == '\n',
    ensures
        take_line(s) == s.subrange(0, k),
        rest_after_line(s) == (if k < s.len() {
            s.skip(k + 1)
        } else {
            Seq::<char>::empty()
        }),
    decreases k,
{
    if s.len() == 0 {
        assert(take_line(s) =~= s.subrange(0, k));
    } else if k == 0 {
        if s[0] == '\n' {
            assert(take_line(s) =~= s.subrange(0, 0));
        }
    } else {
        assert(s[0] != '\n');
        lemma_take_line_at(s.skip(1), k - 1);
        assert(s.skip(1).subrange(0, k - 1) =~= s.subrange(1, k));
        assert(take_line(s) == seq![s[0]] + s.subrange(1, k));
        assert(take_line(s) =~= s.subrange(0, k));
        if k < s.len() {
            assert(s.skip(1).skip(k) =~= s.skip(k + 1));
        }
    }
}

/// Characterizes the first segment of a NUL-separated text by the position
/// of its first NUL.
pub proof fn lemma_take_nul_at(s: Seq<char>, k: int)
    requires
        0 <= k <= s.len(),
        forall|t: int| 0 <= t < k ==> s[t] != '\u{0}',
        k == s.len() || s[k] == '\u{0}',
    ensures
        take_to_nul(s) == s.subrange(0, k),
        rest_after_nul(s) == (if k < s.len() {
            s.skip(k + 1)
        } else {
            Seq::<char>::empty()
        }),
        contains_nul(s) == (k < s.len()),
    decreases k,
{
    if s.len() == 0 {
        assert(take_to_nul(s) =~= s.subrange(0, k));
        assert(!contains_nul(s));
    } else if k == 0 {
        if s[0] == '\u{0}' {
            assert(take_to_nul(s) =~= s.subrange(0, 0));
            assert(contains_nul(s));
        }
    } else {
        assert(s[0] != '\u{0}');
        lemma_take_nul_at(s.skip(1), k - 1);
        assert(s.skip(1).subrange(0, k - 1) =~= s.subrange(1, k));
        assert(take_to_nul(s) == seq![s[0]] + s.subrange(1, k));
        assert(take_to_nul(s) =~= s.subrange(0, k));
        if k < s.len() {
            assert(s.skip(1).skip(k) =~= s.skip(k + 1));
            assert(s.skip(1)[k - 1] == s[k]);
            assert(contains_nul(s));
        } else {
            if contains_nul(s) {
                let t = choose|t: int| 0 <= t < s.len() && s[t] == '\u{0}';
                assert(s.skip(1)[t - 1] == s[t]);
                assert(contains_nul(s.skip(1)));
            }
        }
    }
}

/// Extracts the line starting at `pos` (carriage return stripped) and the
/// position where the next line starts.
fn next_line(chars: &Vec<char>, pos: usize) -> (r: (Vec<char>, usize))
    requires
        pos <= chars@.len(),
    ensures
        r.0@ == strip_cr(take_line(chars@.skip(pos as int))),
        chars@.skip(r.1 as int) == rest_after_line(chars@.skip(pos as int)),
        pos <= r.1 <= chars@.len(),
        pos < chars@.len() ==> pos < r.1,
{
    let ghost s = chars@.skip(pos as int);
    let n = chars.len();
    let mut j: usize = pos;
    while j < n && chars[j] != '\n'
        invariant
            pos <= j <= n,
            n == chars@.len(),
            s == chars@.skip(pos as int),
            forall|t: int| pos <= t < j ==> #[trigger] chars@[t] != '\n',
        decreases n - j,
    {
        j = j + 1;
    }
    proof {
        assert(j == n || chars@[j as int] == '\n');
        assert forall|t: int| 0 <= t < j - pos implies s[t] != '\n' by {
            assert(s[t] == chars@[pos + t]);
        }
        if j < n {
            assert(s[j - pos] == chars@[j as int]);
        }
        lemma_take_line_at(s, j - pos);
        assert(take_line(s) =~= chars@.subrange(pos as int, j as int));
    }
    let mut line: Vec<char> = Vec::new();
    let mut t: usize = pos;
    let end: usize = if j > pos && chars[j - 1] == '\r' {
        j - 1
    } else {
        j
    };
    while t < end
        invariant
            pos <= t <= end <= chars@.len(),
            line@ == chars@.subrange(pos as int, t as int),
        decreases end - t,
    {
        line.push(chars[t]);
        t = t + 1;
        proof {
            assert(line@ =~= chars@.subrange(pos as int, t as int));
        }
    }
    proof {
        let tl = take_line(s);
        if j > pos && chars@[j - 1] == '\r' {
            assert(tl.len() > 0 && tl.last() == '\r');
            assert(strip_cr(tl) == tl.drop_last());
            assert(line@ =~= tl.drop_last());
        } else {
            assert(strip_cr(tl) == tl);
            assert(line@ =~= tl);
        }
    }
    let next: usize = if j < n {
        j + 1
    } else {
        n
    };
    proof {
        if j < n {
            assert(chars@.skip(next as int) =~= s.skip(j - pos + 1));
        } else {
            assert(chars@.skip(next as int) =~= Seq::<char>::empty());
        }
    }
    (line, next)
}

/// Decodes the quoted body starting at `start` (just after the opening
/// quote) up to the closing quote.
fn parse_quoted_exec(line: &Vec<char>, start: usize) -> (r: Option<(Vec<char>, usize)>)
    ensures
        match r {
            Some(p) => parse_quoted(line@, start as int) == Some((p.0@, p.1 as int)) && start < p.1
                <= line@.len(),
            None => parse_quoted(line@, start as int) is None,
        },
{
    let n = line.len();
    if start >= n {
        return None;
    }
    let mut content: Vec<char> = Vec::new();
    let mut i: usize = start;
    while i < n
        invariant
            start <= i <= n,
            n == line@.len(),
            parse_quoted(line@, start as int) == (match parse_quoted(line@, i as int) {
                Some(p) => Some((content@ + p.0, p.1)),
                None => None::<(Seq<char>, int)>,
            }),
        decreases n - i,
    {
        let c = line[i];
        if c == '"' {
            proof {
                assert(parse_quoted(line@, i as int) == Some(
                    (Seq::<char>::empty(), i + 1 as int),
                ));
                assert(content@ + Seq::<char>::empty() =~= content@);
            }
            return Some((content, i + 1));
        } else if c == '\\' {
            if i + 1 >= n {
                proof {
                    assert(parse_quoted(line@, i as int) is None);
                }
                return None;
            }
            let e = line[i + 1];
            let decoded: char = if e == '\\' {
                '\\'
            } else if e == '"' {
                '"'
            } else if e == '0' {
                '\u{0}'
            } else {
                proof {
                    assert(unescape_char(line@[i + 1]) is None);
                    assert(parse_quoted(line@, i as int) is None);
                }
                return None;
            };
            let ghost before = content@;
            content.push(decoded);
            proof {
                assert(unescape_char(line@[i + 1]) == Some(decoded));
                assert forall|p0: Seq<char>, p1: int|
                    parse_quoted(line@, i + 2) == Some((p0, p1)) implies content@ + p0 =~= before
                    + (seq![decoded] + p0) by {}
                assert(parse_quoted(line@, i as int) == (match parse_quoted(line@, i + 2) {
                    Some(p) => Some((seq![decoded] + p.0, p.1)),
                    None => None::<(Seq<char>, int)>,
                }));
                assert(parse_quoted(line@, start as int) == (match parse_quoted(line@, i + 2) {
                    Some(p) => Some((content@ + p.0, p.1)),
                    None => None::<(Seq<char>, int)>,
                })) by {
                    match parse_quoted(line@, i + 2) {
                        Some(p) => {
                            assert(content@ + p.0 =~= before + (seq![decoded] + p.0));
                        },
                        None => {},
                    }
                }
            }
            i = i + 2;
        } else {
            let ghost before = content@;
            content.push(c);
            proof {
                assert(parse_quoted(line@, i as int) == (match parse_quoted(line@, i + 1) {
                    Some(p) => Some((seq![c] + p.0, p.1)),
                    None => None::<(Seq<char>, int)>,
                }));
                assert(parse_quoted(line@, start as int) == (match parse_quoted(line@, i + 1) {
                    Some(p) => Some((content@ + p.0, p.1)),
                    None => None::<(Seq<char>, int)>,
                })) by {
                    match parse_quoted(line@, i + 1) {
                        Some(p) => {
                            assert(content@ + p.0 =~= before + (seq![c] + p.0));
                        },
                        None => {},
                    }
                }
            }
            i = i + 1;
        }
    }
    proof {
        assert(parse_quoted(line@, i as int) is None);
    }
    None
}

/// Whether the characters at the start of `d` spell out `lit`.
fn starts_with_lit(d: &Vec<char>, lit: &str) -> (r: bool)
    ensures
        r == (d@.len() >= lit@.len() && d@.subrange(0, lit@.len() as int) == lit@),
{
    let l = strutil::str_to_chars(lit);
    if d.len() < l.len() {
        return false;
    }
    let mut i: usize = 0;
    while i < l.len()
        invariant
            i <= l@.len() <= d@.len(),
            l@ == lit@,
            forall|t: int| 0 <= t < i ==> d@[t] == l@[t],
        decreases l@.len() - i,
    {
        if d[i] != l[i] {
            proof {
                assert(d@.subrange(0, lit@.len() as int)[i as int] != lit@[i as int]);
            }
            return false;
        }
        i = i + 1;
    }
    proof {
        assert(d@.subrange(0, lit@.len() as int) =~= lit@);
    }
    true
}

/// The value of one hexadecimal digit character, if it is one.
fn hex_val_exec(c: char) -> (r: Option<u32>)
    ensures
        match r {
            Some(v) => hex_val(c) == Some(v as int) && v < 16,
            None => hex_val(c) is None,
        },
{
    match c {
        '0' => Some(0),
        '1' => Some(1),
        '2' => Some(2),
        '3' => Some(3),
        '4' => Some(4),
        '5' => Some(5),
        '6' => Some(6),
        '7' => Some(7),
        '8' => Some(8),
        '9' => Some(9),
        'a' => Some(10),
        'b' => Some(11),
        'c' => Some(12),
        'd' => Some(13),
        'e' => Some(14),
        'f' => Some(15),
        'A' => Some(10),
        'B' => Some(11),
        'C' => Some(12),
        'D' => Some(13),
        'E' => Some(14),
        'F' => Some(15),
        _ => None,
    }
}

/// Sixteen to the `i`th power.
pub open spec fn pow16(i: int) -> int
    decreases i,
{
    if i <= 0 {
        1
    } else {
        16 * pow16(i - 1)
    }
}

/// The value of a hex digit string stays below sixteen to its length.
proof fn lemma_hex_seq_val_bound(s: Seq<char>)
    requires
        all_hex(s),
    ensures
        0 <= hex_seq_val(s) < pow16(s.len() as int),
    decreases s.len(),
{
    if s.len() == 0 {
    } else {
        assert(all_hex(s.drop_last())) by {
            assert forall|i: int| 0 <= i < s.len() - 1 implies (#[trigger] hex_val(
                s.drop_last()[i],
            )) is Some by {
                assert(s.drop_last()[i] == s[i]);
                assert(hex_val(s[i]) is Some);
            }
        }
        lemma_hex_seq_val_bound(s.drop_last());
        assert(hex_val(s.last()) is Some);
        assert(0 <= hex_val(s.last())->Some_0 < 16);
    }
}

/// Splits quoted `str(7)` content into its NUL-separated items.
fn split_nul_exec(content: &Vec<char>) -> (r: Vec<String>)
    ensures
        Seq::new(r@.len(), |i: int| r@[i]@) == multi_of_content(content@),
{
    let mut r: Vec<String> = Vec::new();
    if content.len() == 0 {
        proof {
            assert(Seq::new(r@.len(), |i: int| r@[i]@) =~= multi_of_content(content@));
        }
        return r;
    }
    let n = content.len();
    let mut pos: usize = 0;
    let ghost full = content@;
    proof {
        assert(full.skip(0) =~= full);
    }
    while pos < n
        invariant
            pos <= n,
            n == content@.len(),
            full == content@,
            n > 0,
            // Either everything is consumed, or the remaining suffix still
            // splits into the items not yet collected.
            pos < n ==> split_nul(full) == Seq::new(r@.len(), |i: int| r@[i]@) + split_nul(
                full.skip(pos as int),
            ),
            pos == n ==> split_nul(full) == Seq::new(r@.len(), |i: int| r@[i]@),
        decreases n - pos,
    {
        let ghost s = full.skip(pos as int);
        let mut j: usize = pos;
        while j < n && content[j] != '\u{0}'
            invariant
                pos <= j <= n,
                n == content@.len(),
                full == content@,
                forall|t: int| pos <= t < j ==> #[trigger] content@[t] != '\u{0}',
            decreases n - j,
        {
            j = j + 1;
        }
        proof {
            assert(j == n || content@[j as int] == '\u{0}');
            assert forall|t: int| 0 <= t < j - pos implies s[t] != '\u{0}' by {
                assert(s[t] == content@[pos + t]);
            }
            if j < n {
                assert(s[j - pos] == content@[j as int]);
            }
            lemma_take_nul_at(s, j - pos);
            assert(take_to_nul(s) =~= content@.subrange(pos as int, j as int));
        }
        let mut item: Vec<char> = Vec::new();
        let mut t: usize = pos;
        while t < j
            invariant
                pos <= t <= j <= content@.len(),
                item@ == content@.subrange(pos as int, t as int),
            decreases j - t,
        {
            item.push(content[t]);
            t = t + 1;
            proof {
                assert(item@ =~= content@.subrange(pos as int, t as int));
            }
        }
        let ghost before = r@;
        r.push(strutil::chars_to_string(&item));
        proof {
            assert(r@[r@.len() - 1]@ == take_to_nul(s));
            assert(Seq::new(r@.len(), |i: int| r@[i]@) =~= Seq::new(
                before.len(),
                |i: int| before[i]@,
            ).push(take_to_nul(s)));
        }
        if j < n {
            pos = j + 1;
            proof {
                assert(contains_nul(s));
                assert(split_nul(s) == seq![take_to_nul(s)] + split_nul(rest_after_nul(s)));
                assert(rest_after_nul(s) =~= full.skip(pos as int));
                if pos < n {
                    assert(split_nul(full) =~= Seq::new(r@.len(), |i: int| r@[i]@) + split_nul(
                        full.skip(pos as int),
                    ));
                } else {
                    // A trailing NUL leaves one empty item.
                    assert(full.skip(pos as int) =~= Seq::<char>::empty());
                    assert(!contains_nul(Seq::<char>::empty()));
                    assert(split_nul(Seq::<char>::empty()) == seq![Seq::<char>::empty()]);
                    assert(split_nul(full) =~= Seq::new(r@.len(), |i: int| r@[i]@) + seq![
                        Seq::<char>::empty(),
                    ]);
                }
            }
            if pos == n {
                // Trailing separator: one final empty item.
                let ghost before2 = r@;
                r.push(String::new());
                proof {
                    assert(Seq::new(r@.len(), |i: int| r@[i]@) =~= Seq::new(
                        before2.len(),
                        |i: int| before2[i]@,
                    ).push(Seq::<char>::empty()));
                    assert(split_nul(full) =~= Seq::new(r@.len(), |i: int| r@[i]@));
                }
            }
        } else {
            pos = n;
            proof {
                assert(!contains_nul(s));
                assert(split_nul(s) == seq![s]);
                assert(take_to_nul(s) =~= s);
                assert(split_nul(full) =~= Seq::new(r@.len(), |i: int| r@[i]@));
            }
        }
    }
    proof {
        assert(multi_of_content(content@) == split_nul(full));
    }
    r
}

/// Parses the data part of a value line.
fn parse_data_exec(d: &Vec<char>) -> (r: Option<RegistryValue>)
    ensures
        match r {
            Some(v) => parse_data(d@) == Some(v@),
            None => parse_data(d@) is None,
        },
{
    if d.len() == 1 && d[0] == '-' {
        proof {
            assert(d@ =~= seq!['-']);
        }
        return Some(RegistryValue::Delete);
    }
    proof {
        assert(d@ != seq!['-']) by {
            if d@ =~= seq!['-'] {
                assert(d@.len() == 1 && d@[0] == '-');
            }
        }
    }
    if d.len() >= 1 && d[0] == '"' {
        match parse_quoted_exec(d, 1) {
            Some((content, j)) => {
                if j == d.len() {
                    return Some(RegistryValue::Str(strutil::chars_to_string(&content)));
                }
                return None;
            },
            None => {
                return None;
            },
        }
    }
    if starts_with_lit(d, "str(2):\"") {
        proof {
            reveal_strlit("str(2):\"");
        }
        match parse_quoted_exec(d, 8) {
            Some((content, j)) => {
                if j == d.len() {
                    return Some(RegistryValue::ExpandStr(strutil::chars_to_string(&content)));
                }
                return None;
            },
            None => {
                return None;
            },
        }
    }
    if starts_with_lit(d, "str(7):\"") {
        proof {
            reveal_strlit("str(7):\"");
            reveal_strlit("str(2):\"");
        }
        match parse_quoted_exec(d, 8) {
            Some((content, j)) => {
                if j == d.len() {
                    let items = split_nul_exec(&content);
                    let v = RegistryValue::MultiStr(items);
                    proof {
                        assert(v@ == RegistryValueV::MultiStr(multi_of_content(content@)));
                    }
                    return Some(v);
                }
                return None;
            },
            None => {
                return None;
            },
        }
    }
    if starts_with_lit(d, "dword:") && d.len() == 14 {
        proof {
            reveal_strlit("dword:");
        }
        let ghost digits = d@.skip(6);
        proof {
            assert(digits.len() == 8);
            assert(digits.subrange(0, 0) =~= Seq::<char>::empty());
            // What the whole line parses to, settled while the branch
            // negations are still in scope.
            assert(d@[0] == 'd') by {
                assert(d@.subrange(0, 6)[0] == d@[0]);
            }
            assert(!(d@.len() >= 4 && d@.subrange(0, 4) == "hex:"@)) by {
                reveal_strlit("hex:");
                if d@.len() >= 4 && d@.subrange(0, 4) == "hex:"@ {
                    assert(d@.subrange(0, 4)[0] == d@[0]);
                }
            }
            assert(!all_hex(digits) ==> parse_data(d@) is None);
            assert(all_hex(digits) ==> parse_data(d@) == Some(
                RegistryValueV::Dword(hex_seq_val(digits) as u32),
            ));
        }
        let mut acc: u64 = 0;
        let mut i: usize = 0;
        while i < 8
            invariant
                i <= 8,
                d@.len() == 14,
                digits == d@.skip(6),
                digits.len() == 8,
                !all_hex(digits) ==> parse_data(d@) is None,
                all_hex(digits) ==> parse_data(d@) == Some(
                    RegistryValueV::Dword(hex_seq_val(digits) as u32),
                ),
                all_hex(digits.subrange(0, i as int)),
                acc as int == hex_seq_val(digits.subrange(0, i as int)),
                (acc as int) < pow16(i as int),
            decreases 8 - i,
        {
            let c = d[6 + i];
            proof {
                assert(d@[6 + i] == digits[i as int]);
            }
            match hex_val_exec(c) {
                Some(v) => {
                    proof {
                        assert(16 * acc as int + v < 16 * pow16(i as int)) by {
                            assert(acc as int <= pow16(i as int) - 1);
                            assert(16 * acc as int <= 16 * (pow16(i as int) - 1));
                        }
                        assert(pow16(i + 1) == 16 * pow16(i as int));
                        assert(pow16(8) == 0x100000000) by {
                            reveal_with_fuel(pow16, 9);
                        }
                        assert(pow16(i + 1) <= pow16(8)) by {
                            lemma_pow16_mono(i + 1, 8);
                        }
                    }
                    acc = acc * 16 + (v as u64);
                    i = i + 1;
                    proof {
                        let p = digits.subrange(0, i as int);
                        assert(p.drop_last() =~= digits.subrange(0, i - 1));
                        assert(p.last() == digits[i - 1]);
                        assert(all_hex(p)) by {
                            assert forall|t: int| 0 <= t < p.len() implies (#[trigger] hex_val(
                                p[t],
                            )) is Some by {
                                if t < i - 1 {
                                    assert(p[t] == digits.subrange(0, i - 1)[t]);
                                }
                            }
                        }
                    }
                },
                None => {
                    proof {
                        assert(!all_hex(digits));
                    }
                    return None;
                },
            }
        }
        proof {
            assert(digits.subrange(0, 8) =~= digits);
            lemma_hex_seq_val_bound(digits);
            assert(pow16(8) == 0x100000000) by {
                reveal_with_fuel(pow16, 9);
            }
            assert(acc as int == hex_seq_val(digits));
        }
        return Some(RegistryValue::Dword(acc as u32));
    }
    if starts_with_lit(d, "hex:") {
        let mut bytes: Vec<u8> = Vec::new();
        let mut pos: usize = 4;
        let n = d.len();
        proof {
            reveal_strlit("hex:");
            // What the whole line parses to, settled while the branch
            // negations are still in scope.
            assert(d@[0] == 'h') by {
                assert(d@.subrange(0, 4)[0] == d@[0]);
            }
            assert(!(d@.len() == 14 && d@.subrange(0, 6) == "dword:"@ && all_hex(d@.skip(6))))
                by {
                reveal_strlit("dword:");
                if d@.len() == 14 && d@.subrange(0, 6) == "dword:"@ {
                    assert(d@.subrange(0, 6)[0] == d@[0]);
                }
            }
            assert(forall|bs: Seq<u8>|
                parse_hex_list(d@.skip(4)) == Some(bs) ==> parse_data(d@) == Some(
                    RegistryValueV::Binary(bs),
                ));
            assert(parse_hex_list(d@.skip(4)) is None ==> parse_data(d@) is None);
        }
        while pos < n
            invariant
                4 <= pos <= n,
                n == d@.len(),
                forall|bs: Seq<u8>|
                    parse_hex_list(d@.skip(4)) == Some(bs) ==> parse_data(d@) == Some(
                        RegistryValueV::Binary(bs),
                    ),
                parse_hex_list(d@.skip(4)) is None ==> parse_data(d@) is None,
                (match parse_hex_list(d@.skip(pos as int)) {
                    Some(rest) => parse_hex_list(d@.skip(4)) == Some(bytes@ + rest),
                    None => parse_hex_list(d@.skip(4)) is None,
                }),
            decreases n - pos,
        {
            let ghost sfx = d@.skip(pos as int);
            if pos + 1 >= n {
                proof {
                    assert(sfx.len() == 1);
                    assert(parse_hex_list(sfx) is None);
                }
                return None;
            }
            let h = hex_val_exec(d[pos]);
            let l = hex_val_exec(d[pos + 1]);
            proof {
                assert(sfx[0] == d@[pos as int] && sfx[1] == d@[pos + 1]);
            }
            match (h, l) {
                (Some(hv), Some(lv)) => {
                    let b: u8 = (hv * 16 + lv) as u8;
                    let ghost before = bytes@;
                    bytes.push(b);
                    proof {
                        assert(b as int == hex_val(sfx[0])->Some_0 * 16 + hex_val(
                            sfx[1],
                        )->Some_0);
                    }
                    if pos + 2 == n {
                        pos = n;
                        proof {
                            assert(sfx.len() == 2);
                            assert(parse_hex_list(sfx) == Some(seq![b]));
                            assert(before + seq![b] =~= bytes@);
                            assert(d@.skip(n as int) =~= Seq::<char>::empty());
                            assert(parse_hex_list(d@.skip(n as int)) == Some(Seq::<u8>::empty()));
                            assert(bytes@ + Seq::<u8>::empty() =~= bytes@);
                            assert(parse_hex_list(d@.skip(4)) == Some(bytes@));
                        }
                    } else if d[pos + 2] == ',' {
                        pos = pos + 3;
                        proof {
                            assert(sfx.len() > 2 && sfx[2] == ',');
                            assert(sfx.skip(3) =~= d@.skip(pos as int));
                            assert(parse_hex_list(sfx) == (match parse_hex_list(sfx.skip(3)) {
                                Some(r2) => Some(seq![b] + r2),
                                None => None::<Seq<u8>>,
                            }));
                            match parse_hex_list(d@.skip(pos as int)) {
                                Some(r2) => {
                                    assert(before + (seq![b] + r2) =~= bytes@ + r2);
                                },
                                None => {},
                            }
                        }
                    } else {
                        proof {
                            assert(sfx.len() > 2 && sfx[2] != ',');
                            assert(parse_hex_list(sfx) is None);
                        }
                        return None;
                    }
                },
                _ => {
                    proof {
                        assert(parse_hex_list(sfx) is None);
                    }
                    return None;
                },
            }
        }
        proof {
            assert(pos == n);
            assert(d@.skip(n as int) =~= Seq::<char>::empty());
            assert(parse_hex_list(d@.skip(n as int)) == Some(Seq::<u8>::empty()));
            assert(bytes@ + Seq::<u8>::empty() =~= bytes@);
            assert(parse_hex_list(d@.skip(4)) == Some(bytes@));
        }
        return Some(RegistryValue::Binary(bytes));
    }
    proof {
        assert(parse_data(d@) is None);
    }
    None
}

/// Parses a whole value line.
fn parse_value_line_exec(line: &Vec<char>) -> (r: Option<(ValueName, RegistryValue)>)
    ensures
        match r {
            Some(p) => parse_value_line(line@) == Some((p.0@, p.1@)),
            None => parse_value_line(line@) is None,
        },
{
    if line.len() == 0 {
        return None;
    }
    if line[0] == '@' {
        if line.len() >= 2 && line[1] == '=' {
            let mut data: Vec<char> = Vec::new();
            let mut t: usize = 2;
            while t < line.len()
                invariant
                    2 <= t <= line@.len(),
                    data@ == line@.subrange(2, t as int),
                decreases line@.len() - t,
            {
                data.push(line[t]);
                t = t + 1;
                proof {
                    assert(data@ =~= line@.subrange(2, t as int));
                }
            }
            proof {
                assert(data@ =~= line@.skip(2));
            }
            match parse_data_exec(&data) {
                Some(v) => {
                    return Some((ValueName::Default, v));
                },
                None => {
                    return None;
                },
            }
        }
        return None;
    }
    if line[0] == '"' {
        match parse_quoted_exec(line, 1) {
            Some((nm, j)) => {
                if j < line.len() && line[j] == '=' {
                    let mut data: Vec<char> = Vec::new();
                    let mut t: usize = j + 1;
                    while t < line.len()
                        invariant
                            j + 1 <= t <= line@.len(),
                            data@ == line@.subrange(j + 1, t as int),
                        decreases line@.len() - t,
                    {
                        data.push(line[t]);
                        t = t + 1;
                        proof {
                            assert(data@ =~= line@.subrange(j + 1, t as int));
                        }
                    }
                    proof {
                        assert(data@ =~= line@.skip(j + 1));
                    }
                    match parse_data_exec(&data) {
                        Some(v) => {
                            return Some(
                                (ValueName::Named(strutil::chars_to_string(&nm)), v),
                            );
                        },
                        None => {
                            return None;
                        },
                    }
                }
                return None;
            },
            None => {
                return None;
            },
        }
    }
    None
}

/// Parses a section header line (the caller has seen the opening
/// bracket).
fn parse_section_line_exec(line: &Vec<char>) -> (r: Option<(String, bool)>)
    ensures
        match r {
            Some(p) => parse_section_line(line@) == Some((p.0@, p.1)),
            None => parse_section_line(line@) is None,
        },
{
    let n = line.len();
    if n < 3 || line[n - 1] != ']' {
        return None;
    }
    let deleted = line[1] == '-';
    let start: usize = if deleted {
        2
    } else {
        1
    };
    if start == n - 1 {
        proof {
            assert(line@.subrange(start as int, n - 1).len() == 0);
        }
        return None;
    }
    let mut path: Vec<char> = Vec::new();
    let mut t: usize = start;
    while t < n - 1
        invariant
            start <= t <= n - 1,
            n == line@.len(),
            path@ == line@.subrange(start as int, t as int),
        decreases n - 1 - t,
    {
        path.push(line[t]);
        t = t + 1;
        proof {
            assert(path@ =~= line@.subrange(start as int, t as int));
        }
    }
    Some((strutil::chars_to_string(&path), deleted))
}

/// The parser invariant: the keys a state stands for have pairwise
/// distinct paths and unique value names.
pub open spec fn state_inv(st: ParseState) -> bool {
    &&& crate::store::key_paths_unique(finish_state(st))
    &&& forall|i: int|
        0 <= i < finish_state(st).len() ==> (#[trigger] finish_state(st)[i]).wf()
}

/// Filtering entries keeps value names unique.
proof fn lemma_filter_entries_unique(vs: Seq<EntryV>, p: spec_fn(EntryV) -> bool)
    requires
        crate::store::entry_names_unique(vs),
    ensures
        crate::store::entry_names_unique(vs.filter(p)),
        forall|i: int|
            0 <= i < vs.filter(p).len() ==> exists|j: int|
                0 <= j < vs.len() && #[trigger] vs.filter(p)[i] == vs[j],
    decreases vs.len(),
{
    reveal(Seq::filter);
    if vs.len() > 0 {
        assert(crate::store::entry_names_unique(vs.drop_last())) by {
            assert forall|i: int, j: int|
                0 <= i < j < vs.drop_last().len() implies #[trigger] vs.drop_last()[i].name
                != #[trigger] vs.drop_last()[j].name by {
                assert(vs.drop_last()[i] == vs[i] && vs.drop_last()[j] == vs[j]);
            }
        }
        lemma_filter_entries_unique(vs.drop_last(), p);
        let fd = vs.drop_last().filter(p);
        if p(vs.last()) {
            assert(vs.filter(p) == fd.push(vs.last()));
            assert forall|i: int, j: int|
                0 <= i < j < vs.filter(p).len() implies #[trigger] vs.filter(p)[i].name
                != #[trigger] vs.filter(p)[j].name by {
                if j == vs.filter(p).len() - 1 {
                    let wj = choose|w: int| 0 <= w < vs.drop_last().len() && fd[i] == vs.drop_last()[w];
                    assert(fd[i] == vs[wj]);
                    assert(vs[wj].name != vs[vs.len() - 1].name);
                } else {
                    assert(fd[i].name != fd[j].name);
                }
            }
            assert forall|i: int|
                0 <= i < vs.filter(p).len() implies exists|j: int|
                    0 <= j < vs.len() && #[trigger] vs.filter(p)[i] == vs[j] by {
                if i == vs.filter(p).len() - 1 {
                    assert(vs.filter(p)[i] == vs[vs.len() - 1]);
                } else {
                    let wj = choose|w: int| 0 <= w < vs.drop_last().len() && fd[i] == vs.drop_last()[w];
                    assert(vs.filter(p)[i] == vs[wj]);
                }
            }
        } else {
            assert(vs.filter(p) == fd);
            assert forall|i: int|
                0 <= i < vs.filter(p).len() implies exists|j: int|
                    0 <= j < vs.len() && #[trigger] vs.filter(p)[i] == vs[j] by {
                let wj = choose|w: int| 0 <= w < vs.drop_last().len() && fd[i] == vs.drop_last()[w];
                assert(vs.filter(p)[i] == vs[wj]);
            }
        }
    }
}

/// One parser step preserves the parser invariant.
proof fn lemma_step_preserves_inv(st: ParseState, l: Seq<char>)
    requires
        state_inv(st),
        parse_line_step(st, l) is Some,
    ensures
        state_inv(parse_line_step(st, l)->Some_0),
{
    let st2 = parse_line_step(st, l)->Some_0;
    if l.len() == 0 || l[0] == ';' {
    } else if l[0] == '[' {
        let (path, deleted) = parse_section_line(l)->Some_0;
        if !deleted && (st.current matches Some(k) && k.path == path && k.deleted
            && k.values.len() == 0) {
        } else {
            let stp = push_current(st);
            assert(finish_state(stp) == finish_state(st));
            let nk = finish_state(st2).last();
            assert(finish_state(st2) =~= finish_state(stp).push(nk));
            assert forall|i: int, j: int|
                0 <= i < j < finish_state(st2).len() implies (#[trigger] finish_state(
                st2,
            )[i]).path != (#[trigger] finish_state(st2)[j]).path by {
                if j == finish_state(st2).len() - 1 {
                    assert(finish_state(st2)[i] == finish_state(stp)[i]);
                    assert(!done_has(stp.done, path));
                    assert(finish_state(stp)[i].path != path);
                } else {
                    assert(finish_state(st2)[i] == finish_state(stp)[i]);
                    assert(finish_state(st2)[j] == finish_state(stp)[j]);
                }
            }
            assert forall|i: int|
                0 <= i < finish_state(st2).len() implies (#[trigger] finish_state(
                st2,
            )[i]).wf() by {
                if i < finish_state(st2).len() - 1 {
                    assert(finish_state(st2)[i] == finish_state(stp)[i]);
                } else {
                    assert(finish_state(st2)[i] == nk);
                    assert(nk.values =~= Seq::<EntryV>::empty());
                }
            }
        }
    } else {
        let k = st.current->Some_0;
        let (name, value) = parse_value_line(l)->Some_0;
        let k2 = st2.current->Some_0;
        assert(finish_state(st) == st.done.push(k));
        assert(finish_state(st2) == st.done.push(k2));
        assert(k.wf()) by {
            assert(finish_state(st)[finish_state(st).len() - 1] == k);
        }
        if value is Delete {
            lemma_filter_entries_unique(k.values, |e: EntryV| e.name != name);
            assert(k2.wf());
        } else {
            assert forall|i: int, j: int|
                0 <= i < j < k2.values.len() implies #[trigger] k2.values[i].name
                != #[trigger] k2.values[j].name by {
                if j == k2.values.len() - 1 {
                    assert(k2.values[i] == k.values[i]);
                    assert(!k.has_slot(name));
                    assert(k.values[i].name != name);
                } else {
                    assert(k2.values[i] == k.values[i] && k2.values[j] == k.values[j]);
                }
            }
            assert(k2.wf());
        }
        assert forall|i: int, j: int|
            0 <= i < j < finish_state(st2).len() implies (#[trigger] finish_state(st2)[i]).path
            != (#[trigger] finish_state(st2)[j]).path by {
            assert(finish_state(st)[i].path != finish_state(st)[j].path);
            assert(finish_state(st2)[i].path == finish_state(st)[i].path);
            assert(finish_state(st2)[j].path == finish_state(st)[j].path);
        }
        assert forall|i: int|
            0 <= i < finish_state(st2).len() implies (#[trigger] finish_state(st2)[i]).wf() by {
            if i < finish_state(st2).len() - 1 {
                assert(finish_state(st2)[i] == finish_state(st)[i]);
            }
        }
    }
}

/// A whole parser run preserves the parser invariant.
proof fn lemma_run_preserves_inv(s: Seq<char>, st: ParseState)
    requires
        state_inv(st),
        parse_run(s, st) is Some,
    ensures
        state_inv(parse_run(s, st)->Some_0),
    decreases s.len(),
{
    if s.len() > 0 {
        let st2 = parse_line_step(st, strip_cr(take_line(s)))->Some_0;
        lemma_step_preserves_inv(st, strip_cr(take_line(s)));
        lemma_rest_after_line_shorter(s);
        lemma_run_preserves_inv(rest_after_line(s), st2);
    }
}

/// What one optional file text yields: a registry when the text is there
/// and parses, nothing otherwise.
pub open spec fn parsed_registry(text: Option<Seq<char>>) -> Option<RegistryV> {
    match text {
        Some(t) => match spec_parse(t) {
            Some(keys) => Some(RegistryV { keys }),
            None => None,
        },
        None => None,
    }
}

/// The parser state an executable state stands for.
pub open spec fn exec_state_view(done: Seq<RegistryKey>, current: Option<RegistryKey>) -> ParseState {
    ParseState {
        done: Seq::new(done.len(), |i: int| done[i]@),
        current: match current {
            Some(k) => Some(k@),
            None => None,
        },
    }
}

/// Whether two character vectors hold the same characters.
fn chars_eq(a: &Vec<char>, b: &Vec<char>) -> (r: bool)
    ensures
        r == (a@ == b@),
{
    if a.len() != b.len() {
        return false;
    }
    let mut i: usize = 0;
    while i < a.len()
        invariant
            a@.len() == b@.len(),
            i <= a@.len(),
            forall|t: int| 0 <= t < i ==> a@[t] == b@[t],
        decreases a@.len() - i,
    {
        if a[i] != b[i] {
            return false;
        }
        i = i + 1;
    }
    proof {
        assert(a@ =~= b@);
    }
    true
}

/// Whether a finished key with the given path was already collected.
fn done_contains(done: &Vec<RegistryKey>, path: &str) -> (r: bool)
    ensures
        r == done_has(Seq::new(done@.len(), |i: int| done@[i]@), path@),
{
    let ghost dv = Seq::new(done@.len(), |i: int| done@[i]@);
    let mut i: usize = 0;
    while i < done.len()
        invariant
            i <= done@.len(),
            dv == Seq::new(done@.len(), |t: int| done@[t]@),
            dv.len() == done@.len(),
            forall|t: int| 0 <= t < i ==> (#[trigger] dv[t]).path != path@,
        decreases done@.len() - i,
    {
        if strutil::str_eq(done[i].path.as_str(), path) {
            proof {
                assert(dv[i as int].path == path@);
            }
            return true;
        }
        i = i + 1;
    }
    proof {
        assert(!done_has(dv, path@));
    }
    false
}

/// The entries of a key with one slot erased.
fn remove_slot_entries(values: Vec<RegistryEntry>, name: &ValueName) -> (r: Vec<RegistryEntry>)
    ensures
        Seq::new(r@.len(), |i: int| r@[i]@) == Seq::new(
            values@.len(),
            |i: int| values@[i]@,
        ).filter(|e: EntryV| e.name != name@),
{
    let ghost all = Seq::new(values@.len(), |i: int| values@[i]@);
    let ghost pred = |e: EntryV| e.name != name@;
    let mut r: Vec<RegistryEntry> = Vec::new();
    let mut i: usize = 0;
    proof {
        reveal(Seq::filter);
        assert(all.subrange(0, 0) =~= Seq::<EntryV>::empty());
        assert(Seq::new(r@.len(), |t: int| r@[t]@) =~= all.subrange(0, 0).filter(pred));
    }
    let n = values.len();
    let mut rest = values;
    // Consume the vector front to back, keeping the entries of other names.
    let mut consumed: usize = 0;
    while consumed < n
        invariant
            consumed <= n,
            n == all.len(),
            pred == (|e: EntryV| e.name != name@),
            rest@.len() == n - consumed,
            forall|t: int| 0 <= t < rest@.len() ==> #[trigger] rest@[t]@ == all[consumed + t],
            Seq::new(r@.len(), |t: int| r@[t]@) == all.subrange(0, consumed as int).filter(pred),
        decreases n - consumed,
    {
        let e = rest.remove(0);
        let ghost ev = e@;
        proof {
            assert(ev == all[consumed as int]);
        }
        let keep = !e.name.same_slot(name);
        let ghost rv_before = r@;
        let ghost bview = Seq::new(r@.len(), |t: int| r@[t]@);
        if keep {
            let ghost eg = e;
            r.push(e);
            proof {
                assert(r@ == rv_before.push(eg));
                let nview = Seq::new(r@.len(), |u: int| r@[u]@);
                assert forall|t: int| 0 <= t < r@.len() implies #[trigger] nview[t] == bview.push(
                    ev,
                )[t] by {
                    if t < r@.len() - 1 {
                        assert(r@[t] == rv_before[t]);
                        assert(bview[t] == rv_before[t]@);
                    } else {
                        assert(r@[t] == eg);
                    }
                }
                assert(nview =~= bview.push(ev));
            }
        }
        consumed = consumed + 1;
        proof {
            reveal(Seq::filter);
            let prefix = all.subrange(0, consumed - 1);
            let prefix2 = all.subrange(0, consumed as int);
            assert(prefix2.drop_last() =~= prefix);
            assert(prefix2.last() == all[consumed - 1]);
            if pred(all[consumed - 1]) {
                assert(prefix2.filter(pred) == prefix.filter(pred).push(all[consumed - 1]));
                assert(Seq::new(r@.len(), |t: int| r@[t]@) =~= prefix2.filter(pred));
            } else {
                assert(prefix2.filter(pred) == prefix.filter(pred));
            }
            assert forall|t: int|
                0 <= t < rest@.len() implies #[trigger] rest@[t]@ == all.index(consumed + t) by {}
        }
    }
    proof {
        assert(all.subrange(0, n as int) =~= all);
    }
    r
}

/// Sixteen to a higher power is no smaller.
proof fn lemma_pow16_mono(a: int, b: int)
    requires
        0 <= a <= b,
    ensures
        pow16(a) <= pow16(b),
    decreases b,
{
    if a < b {
        lemma_pow16_mono(a, b - 1);
        assert(pow16(b) == 16 * pow16(b - 1));
        assert(pow16(b - 1) >= 1) by {
            lemma_pow16_pos(b - 1);
        }
    }
}

/// Powers of sixteen are positive.
proof fn lemma_pow16_pos(a: int)
    ensures
        pow16(a) >= 1,
    decreases a,
{
    if a > 0 {
        lemma_pow16_pos(a - 1);
    }
}

impl WineRegistry {
    /// Parses the content of a registry file.  The text must open with the
    /// regedit5 header line; malformed input gives a `Parse` error.
    pub fn load_from_str(text: &str) -> (r: Result<WineRegistry, PrefixError>)
        ensures
            match spec_parse(text@) {
                Some(keys) => r matches Ok(w) && w@ == (RegistryV { keys }) && w@.wf()
                    && w.path_spec() is None,
                None => r matches Err(e) && e matches PrefixError::Parse(_),
            },
    {
        let chars = strutil::str_to_chars(text);
        let n = chars.len();
        if n == 0 {
            return Err(PrefixError::Parse(String::from_str("empty registry text")));
        }
        let (first, start) = next_line(&chars, 0);
        proof {
            assert(chars@.skip(0) =~= text@);
        }
        let hdr = strutil::str_to_chars("Windows Registry Editor Version 5.00");
        if !chars_eq(&first, &hdr) {
            proof {
                assert(strip_cr(take_line(text@)) != header_text());
            }
            return Err(PrefixError::Parse(String::from_str("missing registry header line")));
        }
        let ghost init = ParseState { done: Seq::<KeyV>::empty(), current: None };
        let ghost body = rest_after_line(text@);
        let mut done: Vec<RegistryKey> = Vec::new();
        let mut current: Option<RegistryKey> = None;
        let mut pos = start;
        proof {
            assert(exec_state_view(done@, current) =~= init) by {
                assert(Seq::new(done@.len(), |i: int| done@[i]@) =~= Seq::<KeyV>::empty());
            }
            assert(state_inv(init)) by {
                assert(finish_state(init) == Seq::<KeyV>::empty());
            }
        }
        while pos < n
            invariant
                pos <= n,
                n == chars@.len(),
                chars@ == text@,
                text@.len() > 0,
                strip_cr(take_line(text@)) == header_text(),
                body == rest_after_line(text@),
                init == (ParseState { done: Seq::<KeyV>::empty(), current: None::<KeyV> }),
                state_inv(exec_state_view(done@, current)),
                parse_run(chars@.skip(pos as int), exec_state_view(done@, current)) == parse_run(
                    body,
                    init,
                ),
            decreases n - pos,
        {
            let ghost st = exec_state_view(done@, current);
            let (line, next) = next_line(&chars, pos);
            let ghost lv = line@;
            let ghost rem = chars@.skip(pos as int);
            proof {
                assert(rem.len() > 0);
                assert(lv == strip_cr(take_line(rem)));
                assert(chars@.skip(next as int) == rest_after_line(rem));
                assert(parse_run(rem, st) == (match parse_line_step(st, lv) {
                    Some(st2) => parse_run(rest_after_line(rem), st2),
                    None => None::<ParseState>,
                }));
            }
            if line.len() == 0 {
                proof {
                    assert(parse_line_step(st, lv) == Some(st));
                }
            } else if line[0] == ';' {
                proof {
                    assert(parse_line_step(st, lv) == Some(st));
                }
            } else if line[0] == '[' {
                match parse_section_line_exec(&line) {
                    None => {
                        proof {
                            assert(parse_line_step(st, lv) is None);
                        }
                        return Err(
                            PrefixError::Parse(String::from_str("malformed section header")),
                        );
                    },
                    Some((path, deleted)) => {
                        let continue_same = !deleted && (match &current {
                            Some(k) => {
                                k.deleted && k.values.len() == 0 && strutil::str_eq(
                                    k.path.as_str(),
                                    path.as_str(),
                                )
                            },
                            None => false,
                        });
                        if continue_same {
                            proof {
                                assert(parse_line_step(st, lv) == Some(st));
                            }
                        } else {
                            proof {
                                assert(!(st.current matches Some(k) && k.path == path@
                                    && k.deleted && k.values.len() == 0) || deleted);
                            }
                            let ghost done_before = done@;
                            match current {
                                Some(k) => {
                                    done.push(k);
                                },
                                None => {},
                            }
                            current = None;
                            proof {
                                let stp = push_current(st);
                                assert(exec_state_view(done@, current) =~= stp) by {
                                    match st.current {
                                        Some(_) => {
                                            assert(Seq::new(done@.len(), |i: int| done@[i]@)
                                                =~= stp.done);
                                        },
                                        None => {
                                            assert(Seq::new(done@.len(), |i: int| done@[i]@)
                                                =~= stp.done);
                                        },
                                    }
                                }
                            }
                            if done_contains(&done, path.as_str()) {
                                proof {
                                    assert(parse_line_step(st, lv) is None);
                                }
                                return Err(
                                    PrefixError::Parse(String::from_str("duplicate registry key")),
                                );
                            }
                            let ghost done_after = done@;
                            current = Some(
                                RegistryKey { path, deleted, values: Vec::new() },
                            );
                            proof {
                                let stp = push_current(st);
                                let newk = KeyV {
                                    path: path@,
                                    deleted,
                                    values: Seq::empty(),
                                };
                                assert(exec_state_view(done@, current) =~= (ParseState {
                                    done: stp.done,
                                    current: Some(newk),
                                })) by {
                                    assert(Seq::new(done@.len(), |i: int| done@[i]@)
                                        =~= stp.done);
                                    assert(current->Some_0@.values =~= Seq::<EntryV>::empty());
                                }
                                assert(parse_line_step(st, lv) == Some(
                                    exec_state_view(done@, current),
                                ));
                            }
                        }
                    },
                }
            } else {
                match parse_value_line_exec(&line) {
                    None => {
                        proof {
                            assert(parse_line_step(st, lv) is None);
                        }
                        return Err(PrefixError::Parse(String::from_str("malformed value line")));
                    },
                    Some((name, value)) => {
                        match current {
                            None => {
                                proof {
                                    assert(parse_line_step(st, lv) is None);
                                }
                                return Err(
                                    PrefixError::Parse(
                                        String::from_str("value line outside any section"),
                                    ),
                                );
                            },
                            Some(k) => {
                                let ghost kview = k@;
                                let is_delete = match &value {
                                    RegistryValue::Delete => true,
                                    _ => false,
                                };
                                if is_delete {
                                    let filtered = remove_slot_entries(k.values, &name);
                                    current = Some(
                                        RegistryKey {
                                            path: k.path,
                                            deleted: k.deleted,
                                            values: filtered,
                                        },
                                    );
                                    proof {
                                        assert(exec_state_view(done@, current) =~= (ParseState {
                                            done: st.done,
                                            current: Some(
                                                KeyV {
                                                    values: kview.values.filter(
                                                        |e: EntryV| e.name != name@,
                                                    ),
                                                    ..kview
                                                },
                                            ),
                                        }));
                                        assert(parse_line_step(st, lv) == Some(
                                            exec_state_view(done@, current),
                                        ));
                                    }
                                } else {
                                    let mut k2 = k;
                                    match k2.find_slot(&name) {
                                        Some(_) => {
                                            proof {
                                                assert(kview.has_slot(name@));
                                                assert(parse_line_step(st, lv) is None);
                                            }
                                            return Err(
                                                PrefixError::Parse(
                                                    String::from_str("duplicate value name"),
                                                ),
                                            );
                                        },
                                        None => {},
                                    }
                                    let ghost nv = name@;
                                    let ghost vv = value@;
                                    k2.values.push(RegistryEntry { name, value });
                                    current = Some(k2);
                                    proof {
                                        assert(exec_state_view(done@, current) =~= (ParseState {
                                            done: st.done,
                                            current: Some(
                                                KeyV {
                                                    values: kview.values.push(
                                                        EntryV { name: nv, value: vv },
                                                    ),
                                                    ..kview
                                                },
                                            ),
                                        })) by {
                                            assert(current->Some_0@.values =~= kview.values.push(
                                                EntryV { name: nv, value: vv },
                                            ));
                                        }
                                        assert(parse_line_step(st, lv) == Some(
                                            exec_state_view(done@, current),
                                        ));
                                    }
                                }
                            },
                        }
                    },
                }
            }
            pos = next;
            proof {
                lemma_step_preserves_inv(st, lv);
            }
        }
        proof {
            assert(chars@.skip(n as int) =~= Seq::<char>::empty());
            assert(parse_run(Seq::<char>::empty(), exec_state_view(done@, current)) == Some(
                exec_state_view(done@, current),
            ));
            assert(parse_run(body, init) == Some(exec_state_view(done@, current)));
        }
        let ghost final_st = exec_state_view(done@, current);
        match current {
            Some(k) => {
                done.push(k);
            },
            None => {},
        }
        let reg = Registry { keys: done };
        proof {
            assert(reg@.keys =~= finish_state(final_st)) by {
                match final_st.current {
                    Some(_) => {},
                    None => {},
                }
            }
            assert(spec_parse(text@) == Some(finish_state(final_st)));
            assert(reg@ =~= (RegistryV { keys: spec_parse(text@)->Some_0 }));
            assert(state_inv(final_st));
            assert(reg@.wf());
        }
        Ok(WineRegistry { registry: reg, path: None })
    }

    /// Reconciles the text of the three per-prefix registry files.
    ///
    /// A `None` stands for an absent file; text that fails to parse is
    /// treated as absent too.  The call fails only when no file supplied a
    /// registry; otherwise the result is the full content of exactly one
    /// file, chosen by [`crate::store::merged_model`], and remembers the
    /// prefix path.
    pub fn load_from_prefix_texts(
        prefix_path: &str,
        system: Option<&str>,
        userdef: Option<&str>,
        user: Option<&str>,
    ) -> (r: Result<WineRegistry, PrefixError>)
        ensures
            ({
                let sys = parsed_registry(match system {
                    Some(t) => Some(t@),
                    None => None,
                });
                let ud = parsed_registry(match userdef {
                    Some(t) => Some(t@),
                    None => None,
                });
                let us = parsed_registry(match user {
                    Some(t) => Some(t@),
                    None => None,
                });
                &&& (r is Ok) <==> (sys is Some || ud is Some || us is Some)
                &&& (r matches Ok(w) ==> w@ == crate::store::merged_model(sys, ud, us) && w@.wf()
                    && w.path_spec() == Some(prefix_path@))
                &&& (r matches Err(e) ==> e matches PrefixError::NotFound(_))
            }),
    {
        let sys = Self::parse_optional(system);
        let ud = Self::parse_optional(userdef);
        let us = Self::parse_optional(user);
        let ghost sys_ok = sys is Some;
        let ghost ud_ok = ud is Some;
        let ghost us_ok = us is Some;
        let ghost sysv = match sys {
            Some(ref w) => Some(w@),
            None => None::<RegistryV>,
        };
        let ghost udv = match ud {
            Some(ref w) => Some(w@),
            None => None::<RegistryV>,
        };
        let ghost usv = match us {
            Some(ref w) => Some(w@),
            None => None::<RegistryV>,
        };
        match crate::store::merge_prefix_registries(sys, ud, us) {
            Ok(m) => {
                proof {
                    assert(m@.wf()) by {
                        let merged = crate::store::merged_model(sysv, udv, usv);
                        let empty = RegistryV { keys: Seq::<KeyV>::empty() };
                        assert(empty.wf());
                    }
                }
                let path = strutil::chars_to_string(&strutil::str_to_chars(prefix_path));
                Ok(WineRegistry { registry: m, path: Some(path) })
            },
            Err(e) => Err(e),
        }
    }

    /// Parses one optional file text, treating a failed parse as absent.
    fn parse_optional(text: Option<&str>) -> (r: Option<Registry>)
        ensures
            match r {
                Some(reg) => parsed_registry(match text {
                    Some(t) => Some(t@),
                    None => None,
                }) == Some(reg@) && reg@.wf(),
                None => parsed_registry(match text {
                    Some(t) => Some(t@),
                    None => None,
                }) is None,
            },
    {
        match text {
            Some(t) => {
                match Self::load_from_str(t) {
                    Ok(w) => Some(w.registry),
                    Err(_) => None,
                }
            },
            None => None,
        }
    }

    /// Serializes the registry to regedit5 text.
    pub fn serialize(&self) -> (out: String)
        ensures
            out@ == registry_text(self@),
    {
        let mut out: Vec<char> = Vec::new();
        append_lit(&mut out, "Windows Registry Editor Version 5.00");
        out.push('\n');
        let ghost keys = self@.keys;
        let mut i: usize = 0;
        proof {
            assert(keys.subrange(0, 0) =~= Seq::<KeyV>::empty());
            assert(key_blocks(keys.subrange(0, 0)) =~= Seq::<Seq<char>>::empty());
            assert(out@ =~= header_text() + seq!['\n'] + join_lines(
                key_blocks(keys.subrange(0, 0)),
            ));
        }
        while i < self.registry.keys.len()
            invariant
                i <= self.registry.keys@.len(),
                keys == self@.keys,
                keys.len() == self.registry.keys@.len(),
                out@ == header_text() + seq!['\n'] + join_lines(
                    key_blocks(keys.subrange(0, i as int)),
                ),
            decreases self.registry.keys@.len() - i,
        {
            let ghost before = out@;
            append_key(&mut out, &self.registry.keys[i]);
            proof {
                assert(self.registry.keys@[i as int]@ == keys[i as int]);
            }
            i = i + 1;
            proof {
                let prefix = keys.subrange(0, i - 1);
                let prefix2 = keys.subrange(0, i as int);
                assert(prefix2 =~= prefix.push(keys[i - 1]));
                lemma_key_blocks_snoc(prefix, keys[i - 1]);
                lemma_join_lines_add(key_blocks(prefix), key_lines(keys[i - 1]));
                assert(out@ =~= header_text() + seq!['\n'] + join_lines(key_blocks(prefix2)));
            }
        }
        proof {
            assert(keys.subrange(0, keys.len() as int) =~= keys);
            lemma_join_lines_add(seq![header_text()], key_blocks(keys));
            lemma_join_one(header_text());
            assert(registry_lines(self@) =~= seq![header_text()] + key_blocks(keys));
            assert(out@ =~= registry_text(self@));
        }
        strutil::chars_to_string(&out)
    }
}

} // verus!
