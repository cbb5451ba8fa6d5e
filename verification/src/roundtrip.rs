//! The save/load round trip: serializing a registry and parsing the text
//! back yields the same registry, except that slots holding the `Delete`
//! tombstone are absent afterwards.

use vstd::prelude::*;

use crate::codec::{
    byte_hex_text, clean_text, contains_nul, del_section_line, done_has, entry_line, entry_lines,
    escape_char, escape_text, finish_state, header_text, hex8_text, hex_digit_char,
    hex_list_text, hex_seq_val, hex_val, join_lines, join_nul, key_blocks, key_lines,
    lemma_join_lines_add, lemma_join_one, lemma_take_line_at, lemma_take_nul_at,
    multi_of_content, name_text, parse_data, parse_hex_list, parse_line_step, parse_quoted, parse_run,
    parse_section_line, parse_value_line, push_current, quoted_text, registry_lines,
    registry_text, rest_after_line, rest_after_nul, section_line, spec_parse, split_nul,
    strip_cr, take_line, take_to_nul, value_text, ParseState,
};
use crate::model::{RegistryValueV, ValueNameV};
use crate::store::{EntryV, KeyV, RegistryV};

verus! {

/// A value name the text format represents losslessly: free of line
/// breaks.
pub open spec fn name_serializable(n: ValueNameV) -> bool {
    match n {
        ValueNameV::Default => true,
        ValueNameV::Named(s) => clean_text(s),
    }
}

/// A value the text format represents losslessly: strings free of line
/// breaks; list items additionally free of NUL, and not the single empty
/// item (which the format cannot tell from the empty list).
pub open spec fn value_serializable(v: RegistryValueV) -> bool {
    match v {
        RegistryValueV::Str(s) => clean_text(s),
        RegistryValueV::ExpandStr(s) => clean_text(s),
        RegistryValueV::Dword(_) => true,
        RegistryValueV::Binary(_) => true,
        RegistryValueV::MultiStr(m) => {
            &&& forall|i: int|
                0 <= i < m.len() ==> clean_text(#[trigger] m[i]) && !contains_nul(m[i])
            &&& !(m.len() == 1 && m[0].len() == 0)
        },
        RegistryValueV::Delete => true,
    }
}

/// A key the text format represents losslessly: a nonempty path free of
/// line breaks that does not begin with the deletion marker, and
/// serializable slots.
pub open spec fn key_serializable(k: KeyV) -> bool {
    &&& k.path.len() > 0
    &&& clean_text(k.path)
    &&& k.path[0] != '-'
    &&& forall|i: int|
        0 <= i < k.values.len() ==> name_serializable(#[trigger] k.values[i].name)
            && value_serializable(k.values[i].value)
}

/// A registry the text format represents losslessly.
pub open spec fn serializable(r: RegistryV) -> bool {
    &&& r.wf()
    &&& forall|i: int| 0 <= i < r.keys.len() ==> key_serializable(#[trigger] r.keys[i])
}

/// A key with its tombstone slots dropped: what remains after a save and
/// reload.
pub open spec fn scrub_key(k: KeyV) -> KeyV {
    KeyV { values: k.values.filter(|e: EntryV| !(e.value is Delete)), ..k }
}

/// All keys with their tombstone slots dropped.
pub open spec fn scrub_keys(keys: Seq<KeyV>) -> Seq<KeyV> {
    keys.map_values(|k: KeyV| scrub_key(k))
}

/// Concatenation is clean exactly when both halves are.
proof fn lemma_clean_append(a: Seq<char>, b: Seq<char>)
    ensures
        clean_text(a + b) == (clean_text(a) && clean_text(b)),
{
    if clean_text(a) && clean_text(b) {
        assert forall|i: int| 0 <= i < (a + b).len() implies #[trigger] (a + b)[i] != '\n' && (a
            + b)[i] != '\r' by {
            if i < a.len() {
                assert((a + b)[i] == a[i]);
            } else {
                assert((a + b)[i] == b[i - a.len()]);
            }
        }
    }
    if clean_text(a + b) {
        assert forall|i: int| 0 <= i < a.len() implies #[trigger] a[i] != '\n' && a[i]
            != '\r' by {
            assert((a + b)[i] == a[i]);
        }
        assert forall|i: int| 0 <= i < b.len() implies #[trigger] b[i] != '\n' && b[i]
            != '\r' by {
            assert((a + b)[a.len() + i] == b[i]);
        }
    }
}

/// Escaping a clean string gives clean text.
proof fn lemma_clean_escape(s: Seq<char>)
    requires
        clean_text(s),
    ensures
        clean_text(escape_text(s)),
    decreases s.len(),
{
    if s.len() > 0 {
        assert(clean_text(s.skip(1))) by {
            assert forall|i: int| 0 <= i < s.skip(1).len() implies #[trigger] s.skip(1)[i] != '\n'
                && s.skip(1)[i] != '\r' by {
                assert(s.skip(1)[i] == s[i + 1]);
            }
        }
        lemma_clean_escape(s.skip(1));
        assert(s[0] != '\n' && s[0] != '\r');
        assert(clean_text(escape_char(s[0])));
        lemma_clean_append(escape_char(s[0]), escape_text(s.skip(1)));
    }
}

/// A quoted clean string is a clean line fragment.
proof fn lemma_clean_quoted(s: Seq<char>)
    requires
        clean_text(s),
    ensures
        clean_text(quoted_text(s)),
{
    lemma_clean_escape(s);
    assert(clean_text(seq!['"']));
    lemma_clean_append(seq!['"'], escape_text(s));
    lemma_clean_append(seq!['"'] + escape_text(s), seq!['"']);
}

/// Hex digit characters are never line breaks.
proof fn lemma_hex_digit_clean(d: int)
    ensures
        hex_digit_char(d) != '\n',
        hex_digit_char(d) != '\r',
{
}

/// The eight digits of an integer are clean text.
proof fn lemma_clean_hex8(x: u32)
    ensures
        clean_text(hex8_text(x)),
{
    lemma_hex_digit_clean(((x >> 28) & 0xf) as int);
    lemma_hex_digit_clean(((x >> 24) & 0xf) as int);
    lemma_hex_digit_clean(((x >> 20) & 0xf) as int);
    lemma_hex_digit_clean(((x >> 16) & 0xf) as int);
    lemma_hex_digit_clean(((x >> 12) & 0xf) as int);
    lemma_hex_digit_clean(((x >> 8) & 0xf) as int);
    lemma_hex_digit_clean(((x >> 4) & 0xf) as int);
    lemma_hex_digit_clean((x & 0xf) as int);
    assert(clean_text(hex8_text(x)));
}

/// A comma-separated hex byte list is clean text.
proof fn lemma_clean_hex_list(bs: Seq<u8>)
    ensures
        clean_text(hex_list_text(bs)),
    decreases bs.len(),
{
    if bs.len() == 0 {
        assert(clean_text(hex_list_text(bs)));
    } else if bs.len() == 1 {
        lemma_hex_digit_clean((bs[0] >> 4) as int);
        lemma_hex_digit_clean((bs[0] & 0xf) as int);
        assert(clean_text(hex_list_text(bs)));
    } else {
        lemma_clean_hex_list(bs.skip(1));
        lemma_hex_digit_clean((bs[0] >> 4) as int);
        lemma_hex_digit_clean((bs[0] & 0xf) as int);
        assert(clean_text(byte_hex_text(bs[0])));
        assert(clean_text(seq![',']));
        lemma_clean_append(byte_hex_text(bs[0]), seq![',']);
        lemma_clean_append(byte_hex_text(bs[0]) + seq![','], hex_list_text(bs.skip(1)));
    }
}

/// Joining clean NUL-separated items gives clean text.
proof fn lemma_clean_join_nul(m: Seq<Seq<char>>)
    requires
        forall|i: int| 0 <= i < m.len() ==> clean_text(#[trigger] m[i]),
    ensures
        clean_text(join_nul(m)),
    decreases m.len(),
{
    if m.len() == 0 {
        assert(clean_text(join_nul(m)));
    } else if m.len() == 1 {
        assert(join_nul(m) == m[0]);
    } else {
        assert(forall|i: int| 0 <= i < m.skip(1).len() ==> clean_text(#[trigger] m.skip(1)[i]))
            by {
            assert forall|i: int| 0 <= i < m.skip(1).len() implies clean_text(
                #[trigger] m.skip(1)[i],
            ) by {
                assert(m.skip(1)[i] == m[i + 1]);
            }
        }
        lemma_clean_join_nul(m.skip(1));
        assert(clean_text(seq!['\u{0}']));
        lemma_clean_append(m[0], seq!['\u{0}']);
        lemma_clean_append(m[0] + seq!['\u{0}'], join_nul(m.skip(1)));
    }
}

/// The data text of a serializable value is clean.
proof fn lemma_clean_value_text(v: RegistryValueV)
    requires
        value_serializable(v),
    ensures
        clean_text(value_text(v)),
{
    match v {
        RegistryValueV::Str(s) => {
            lemma_clean_quoted(s);
        },
        RegistryValueV::ExpandStr(s) => {
            lemma_clean_quoted(s);
            assert(clean_text("str(2):"@)) by {
                reveal_strlit("str(2):");
            }
            lemma_clean_append("str(2):"@, quoted_text(s));
        },
        RegistryValueV::MultiStr(m) => {
            lemma_clean_join_nul(m);
            lemma_clean_quoted(join_nul(m));
            assert(clean_text("str(7):"@)) by {
                reveal_strlit("str(7):");
            }
            lemma_clean_append("str(7):"@, quoted_text(join_nul(m)));
        },
        RegistryValueV::Dword(d) => {
            lemma_clean_hex8(d);
            assert(clean_text("dword:"@)) by {
                reveal_strlit("dword:");
            }
            lemma_clean_append("dword:"@, hex8_text(d));
        },
        RegistryValueV::Binary(b) => {
            lemma_clean_hex_list(b);
            assert(clean_text("hex:"@)) by {
                reveal_strlit("hex:");
            }
            lemma_clean_append("hex:"@, hex_list_text(b));
        },
        RegistryValueV::Delete => {
            assert(clean_text(value_text(v)));
        },
    }
}

/// A serializable value line is clean.
proof fn lemma_clean_entry_line(e: EntryV)
    requires
        name_serializable(e.name),
        value_serializable(e.value),
    ensures
        clean_text(entry_line(e)),
{
    lemma_clean_value_text(e.value);
    match e.name {
        ValueNameV::Default => {
            assert(clean_text(name_text(e.name)));
        },
        ValueNameV::Named(s) => {
            lemma_clean_quoted(s);
        },
    }
    assert(clean_text(seq!['=']));
    lemma_clean_append(name_text(e.name), seq!['=']);
    lemma_clean_append(name_text(e.name) + seq!['='], value_text(e.value));
}

/// The section lines of a serializable key are clean.
proof fn lemma_clean_section_lines(path: Seq<char>)
    requires
        clean_text(path),
    ensures
        clean_text(section_line(path)),
        clean_text(del_section_line(path)),
{
    assert(clean_text(seq!['[']));
    assert(clean_text(seq![']']));
    assert(clean_text(seq!['[', '-']));
    lemma_clean_append(seq!['['], path);
    lemma_clean_append(seq!['['] + path, seq![']']);
    lemma_clean_append(seq!['[', '-'], path);
    lemma_clean_append(seq!['[', '-'] + path, seq![']']);
}

/// Decoding an escaped quoted body gives back the original string.
proof fn lemma_parse_quoted_escape(pre: Seq<char>, s: Seq<char>, suffix: Seq<char>)
    ensures
        parse_quoted(pre + escape_text(s) + seq!['"'] + suffix, pre.len() as int) == Some(
            (s, (pre.len() + escape_text(s).len() + 1) as int),
        ),
    decreases s.len(),
{
    let l = pre + escape_text(s) + seq!['"'] + suffix;
    let i = pre.len() as int;
    if s.len() == 0 {
        assert(escape_text(s) == Seq::<char>::empty());
        assert(l[i] == '"');
        assert(parse_quoted(l, i) == Some((Seq::<char>::empty(), i + 1)));
        assert(Seq::<char>::empty() =~= s);
    } else {
        let c = s[0];
        let e = escape_char(c);
        let rest = s.skip(1);
        assert(escape_text(s) == e + escape_text(rest));
        let pre2 = pre + e;
        assert(l =~= pre2 + escape_text(rest) + seq!['"'] + suffix);
        lemma_parse_quoted_escape(pre2, rest, suffix);
        if c == '\\' || c == '"' || c == '\u{0}' {
            assert(e.len() == 2 && e[0] == '\\');
            assert(l[i] == '\\') by {
                assert(l[i] == e[0]);
            }
            assert(l[i + 1] == e[1]);
            assert(crate::codec::unescape_char(e[1]) == Some(c));
            assert(pre2.len() == i + 2);
            assert(parse_quoted(l, i + 2) == Some(
                (rest, (pre2.len() + escape_text(rest).len() + 1) as int),
            ));
            assert(seq![c] + rest =~= s);
            assert(pre2.len() + escape_text(rest).len() + 1 == pre.len() + escape_text(s).len()
                + 1);
        } else {
            assert(e =~= seq![c]);
            assert(l[i] == c) by {
                assert(l[i] == e[0]);
            }
            assert(c != '"' && c != '\\');
            assert(pre2.len() == i + 1);
            assert(parse_quoted(l, i + 1) == Some(
                (rest, (pre2.len() + escape_text(rest).len() + 1) as int),
            ));
            assert(seq![c] + rest =~= s);
        }
    }
}

/// A rendered hex digit decodes to its value.
proof fn lemma_hex_digit_round_trip(d: int)
    requires
        0 <= d < 16,
    ensures
        hex_val(hex_digit_char(d)) == Some(d),
{
}

/// Appending one digit multiplies the accumulated value by sixteen.
proof fn lemma_hex_seq_val_snoc(s: Seq<char>, c: char, d: int)
    requires
        hex_val(c) == Some(d),
    ensures
        hex_seq_val(s.push(c)) == hex_seq_val(s) * 16 + d,
{
    assert(s.push(c).drop_last() =~= s);
    assert(s.push(c).last() == c);
}

/// The eight rendered digits of an integer decode back to it.
proof fn lemma_hex8_round_trip(x: u32)
    ensures
        crate::codec::all_hex(hex8_text(x)),
        hex_seq_val(hex8_text(x)) == x as int,
{
    let t = hex8_text(x);
    let d7 = ((x >> 28) & 0xf) as int;
    let d6 = ((x >> 24) & 0xf) as int;
    let d5 = ((x >> 20) & 0xf) as int;
    let d4 = ((x >> 16) & 0xf) as int;
    let d3 = ((x >> 12) & 0xf) as int;
    let d2 = ((x >> 8) & 0xf) as int;
    let d1 = ((x >> 4) & 0xf) as int;
    let d0 = (x & 0xf) as int;
    assert((x >> 28) & 0xf < 16 && (x >> 24) & 0xf < 16 && (x >> 20) & 0xf < 16 && (x >> 16)
        & 0xf < 16 && (x >> 12) & 0xf < 16 && (x >> 8) & 0xf < 16 && (x >> 4) & 0xf < 16 && x
        & 0xf < 16) by (bit_vector);
    lemma_hex_digit_round_trip(d7);
    lemma_hex_digit_round_trip(d6);
    lemma_hex_digit_round_trip(d5);
    lemma_hex_digit_round_trip(d4);
    lemma_hex_digit_round_trip(d3);
    lemma_hex_digit_round_trip(d2);
    lemma_hex_digit_round_trip(d1);
    lemma_hex_digit_round_trip(d0);
    assert(crate::codec::all_hex(t)) by {
        assert forall|i: int| 0 <= i < t.len() implies (#[trigger] hex_val(t[i])) is Some by {
            if i == 0 {
                assert(t[i] == hex_digit_char(d7));
            } else if i == 1 {
                assert(t[i] == hex_digit_char(d6));
            } else if i == 2 {
                assert(t[i] == hex_digit_char(d5));
            } else if i == 3 {
                assert(t[i] == hex_digit_char(d4));
            } else if i == 4 {
                assert(t[i] == hex_digit_char(d3));
            } else if i == 5 {
                assert(t[i] == hex_digit_char(d2));
            } else if i == 6 {
                assert(t[i] == hex_digit_char(d1));
            } else {
                assert(t[i] == hex_digit_char(d0));
            }
        }
    }
    // Build the digit string by successive appends and fold its value.
    let s1 = seq![hex_digit_char(d7)];
    assert(hex_seq_val(s1) == d7) by {
        assert(s1.drop_last() =~= Seq::<char>::empty());
        assert(s1.last() == hex_digit_char(d7));
        assert(hex_seq_val(Seq::<char>::empty()) == 0);
    }
    let s2 = s1.push(hex_digit_char(d6));
    lemma_hex_seq_val_snoc(s1, hex_digit_char(d6), d6);
    let s3 = s2.push(hex_digit_char(d5));
    lemma_hex_seq_val_snoc(s2, hex_digit_char(d5), d5);
    let s4 = s3.push(hex_digit_char(d4));
    lemma_hex_seq_val_snoc(s3, hex_digit_char(d4), d4);
    let s5 = s4.push(hex_digit_char(d3));
    lemma_hex_seq_val_snoc(s4, hex_digit_char(d3), d3);
    let s6 = s5.push(hex_digit_char(d2));
    lemma_hex_seq_val_snoc(s5, hex_digit_char(d2), d2);
    let s7 = s6.push(hex_digit_char(d1));
    lemma_hex_seq_val_snoc(s6, hex_digit_char(d1), d1);
    let s8 = s7.push(hex_digit_char(d0));
    lemma_hex_seq_val_snoc(s7, hex_digit_char(d0), d0);
    assert(t =~= s8);
    assert(hex_seq_val(t) == ((((((d7 * 16 + d6) * 16 + d5) * 16 + d4) * 16 + d3) * 16 + d2) * 16
        + d1) * 16 + d0);
    assert(((((((((x >> 28) & 0xf) * 16 + ((x >> 24) & 0xf)) * 16 + ((x >> 20) & 0xf)) * 16 + ((x
        >> 16) & 0xf)) * 16 + ((x >> 12) & 0xf)) * 16 + ((x >> 8) & 0xf)) * 16 + ((x >> 4) & 0xf))
        * 16 + (x & 0xf) == x) by (bit_vector);
}

/// A rendered hex byte list decodes back to its bytes.
proof fn lemma_hex_list_round_trip(bs: Seq<u8>)
    ensures
        parse_hex_list(hex_list_text(bs)) == Some(bs),
    decreases bs.len(),
{
    let d = hex_list_text(bs);
    if bs.len() == 0 {
        assert(bs =~= Seq::<u8>::empty());
    } else {
        let b = bs[0];
        let hi = (b >> 4) as int;
        let lo = (b & 0xf) as int;
        assert(b >> 4 < 16 && b & 0xf < 16) by (bit_vector);
        lemma_hex_digit_round_trip(hi);
        lemma_hex_digit_round_trip(lo);
        assert(((b >> 4) as int) * 16 + ((b & 0xf) as int) == b as int) by (bit_vector);
        if bs.len() == 1 {
            assert(d == byte_hex_text(b));
            assert(d.len() == 2);
            assert(d[0] == hex_digit_char(hi) && d[1] == hex_digit_char(lo));
            assert(parse_hex_list(d) == Some(seq![b]));
            assert(seq![b] =~= bs);
        } else {
            lemma_hex_list_round_trip(bs.skip(1));
            assert(d == byte_hex_text(b) + seq![','] + hex_list_text(bs.skip(1)));
            assert(d.len() >= 3);
            assert(d[0] == hex_digit_char(hi));
            assert(d[1] == hex_digit_char(lo));
            assert(d[2] == ',');
            assert(d.skip(3) =~= hex_list_text(bs.skip(1)));
            assert(parse_hex_list(d) == Some(seq![b] + bs.skip(1)));
            assert(seq![b] + bs.skip(1) =~= bs);
        }
    }
}

/// Splitting a NUL-joined list gives back its items.
proof fn lemma_split_join_nul(m: Seq<Seq<char>>)
    requires
        m.len() >= 1,
        forall|i: int| 0 <= i < m.len() ==> !contains_nul(#[trigger] m[i]),
    ensures
        split_nul(join_nul(m)) == m,
    decreases m.len(),
{
    let j = join_nul(m);
    if m.len() == 1 {
        assert(j == m[0]);
        assert(!contains_nul(j));
        assert(split_nul(j) == seq![j]);
        assert(seq![j] =~= m);
    } else {
        lemma_split_join_nul(m.skip(1));
        assert(j == m[0] + seq!['\u{0}'] + join_nul(m.skip(1)));
        assert forall|t: int| 0 <= t < m[0].len() implies j[t] != '\u{0}' by {
            assert(j[t] == m[0][t]);
        }
        assert(j[m[0].len() as int] == '\u{0}');
        lemma_take_nul_at(j, m[0].len() as int);
        assert(contains_nul(j));
        assert(take_to_nul(j) =~= m[0]);
        assert(rest_after_nul(j) =~= join_nul(m.skip(1)));
        assert(split_nul(j) == seq![m[0]] + split_nul(join_nul(m.skip(1))));
        assert(seq![m[0]] + m.skip(1) =~= m);
    }
}

/// The quoted content of a serializable string list decodes back to it.
proof fn lemma_multi_round_trip(m: Seq<Seq<char>>)
    requires
        forall|i: int| 0 <= i < m.len() ==> !contains_nul(#[trigger] m[i]),
        !(m.len() == 1 && m[0].len() == 0),
    ensures
        multi_of_content(join_nul(m)) == m,
{
    let j = join_nul(m);
    if m.len() == 0 {
        assert(j.len() == 0);
        assert(multi_of_content(j) =~= m);
    } else {
        lemma_split_join_nul(m);
        assert(j.len() > 0) by {
            if m.len() == 1 {
                assert(j == m[0]);
            } else {
                assert(j == m[0] + seq!['\u{0}'] + join_nul(m.skip(1)));
            }
        }
    }
}

/// The rendered data of a serializable value parses back to the value.
proof fn lemma_data_round_trip(v: RegistryValueV)
    requires
        value_serializable(v),
    ensures
        parse_data(value_text(v)) == Some(v),
{
    let d = value_text(v);
    match v {
        RegistryValueV::Delete => {
            assert(d =~= seq!['-']);
        },
        RegistryValueV::Str(s) => {
            assert(d =~= seq!['"'] + escape_text(s) + seq!['"'] + Seq::<char>::empty());
            lemma_parse_quoted_escape(seq!['"'], s, Seq::<char>::empty());
            assert(d[0] == '"');
            assert(d.len() >= 2);
            assert(d != seq!['-']) by {
                if d == seq!['-'] {
                    assert(d.len() == 1);
                }
            }
            assert(parse_quoted(d, 1) == Some((s, d.len() as int)));
        },
        RegistryValueV::ExpandStr(s) => {
            lemma_str_prefix_data(v, "str(2):", s);
        },
        RegistryValueV::MultiStr(m) => {
            lemma_str_prefix_data(v, "str(7):", join_nul(m));
            lemma_multi_round_trip(m);
        },
        RegistryValueV::Dword(x) => {
            reveal_strlit("dword:");
            assert(d == "dword:"@ + hex8_text(x));
            assert(d.len() == 14);
            assert(d != seq!['-']) by {
                if d == seq!['-'] {
                    assert(d.len() == 1);
                }
            }
            assert(d[0] == 'd') by {
                assert(d[0] == "dword:"@[0]);
            }
            assert(d[0] != '"');
            assert(d.subrange(0, 8) != "str(2):\""@ && d.subrange(0, 8) != "str(7):\""@) by {
                reveal_strlit("str(2):\"");
                reveal_strlit("str(7):\"");
                assert(d.subrange(0, 8)[0] == d[0]);
            }
            assert(d.subrange(0, 6) =~= "dword:"@);
            assert(d.skip(6) =~= hex8_text(x));
            lemma_hex8_round_trip(x);
            assert(hex_seq_val(d.skip(6)) as u32 == x);
        },
        RegistryValueV::Binary(b) => {
            reveal_strlit("hex:");
            assert(d == "hex:"@ + hex_list_text(b));
            assert(d.len() >= 4);
            assert(d[0] == 'h') by {
                assert(d[0] == "hex:"@[0]);
            }
            assert(d != seq!['-']) by {
                if d == seq!['-'] {
                    assert(d.len() == 1);
                }
            }
            assert(d[0] != '"');
            if d.len() >= 8 {
                assert(d.subrange(0, 8) != "str(2):\""@ && d.subrange(0, 8) != "str(7):\""@)
                    by {
                    reveal_strlit("str(2):\"");
                    reveal_strlit("str(7):\"");
                    assert(d.subrange(0, 8)[0] == d[0]);
                }
            }
            assert(!(d.len() == 14 && d.subrange(0, 6) == "dword:"@ && crate::codec::all_hex(
                d.skip(6),
            ))) by {
                reveal_strlit("dword:");
                if d.len() == 14 && d.subrange(0, 6) == "dword:"@ {
                    assert(d.subrange(0, 6)[0] == d[0]);
                }
            }
            assert(d.subrange(0, 4) =~= "hex:"@);
            assert(d.skip(4) =~= hex_list_text(b));
            lemma_hex_list_round_trip(b);
        },
    }
}

/// Dispatch for the two `str(N):"..."` forms: the rendered data parses
/// back to the value whose quoted content is `content`.
proof fn lemma_str_prefix_data(v: RegistryValueV, prefix: &str, content: Seq<char>)
    requires
        (v is ExpandStr && prefix@ == "str(2):"@ && content == v->ExpandStr_0) || (v is MultiStr
            && prefix@ == "str(7):"@ && content == join_nul(v->MultiStr_0)),
        value_text(v) == prefix@ + quoted_text(content),
    ensures
        ({
            let d = value_text(v);
            &&& d.len() >= 9
            &&& d != seq!['-']
            &&& d[0] == 's'
            &&& (v is ExpandStr ==> d.subrange(0, 8) == "str(2):\""@ && parse_quoted(d, 8)
                == Some((content, d.len() as int)))
            &&& (v is MultiStr ==> d.subrange(0, 8) != "str(2):\""@ && d.subrange(0, 8)
                == "str(7):\""@ && parse_quoted(d, 8) == Some((content, d.len() as int)))
        }),
{
    reveal_strlit("str(2):");
    reveal_strlit("str(7):");
    reveal_strlit("str(2):\"");
    reveal_strlit("str(7):\"");
    let d = value_text(v);
    assert(d == prefix@ + quoted_text(content));
    assert(quoted_text(content).len() >= 2);
    assert(d.len() >= 9);
    assert(d != seq!['-']) by {
        if d == seq!['-'] {
            assert(d.len() == 1);
        }
    }
    assert(d[0] == prefix@[0]);
    assert(d[0] == 's');
    let pre8 = prefix@ + seq!['"'];
    assert(d.subrange(0, 8) =~= pre8);
    if v is ExpandStr {
        assert(pre8 =~= "str(2):\""@);
    } else {
        assert(pre8 =~= "str(7):\""@);
        assert(pre8 != "str(2):\""@) by {
            assert(pre8[4] == prefix@[4]);
            assert("str(2):\""@[4] == '2' && prefix@[4] == '7');
        }
    }
    assert(d =~= pre8 + escape_text(content) + seq!['"'] + Seq::<char>::empty());
    lemma_parse_quoted_escape(pre8, content, Seq::<char>::empty());
    assert(pre8.len() == 8);
    assert((pre8.len() + escape_text(content).len() + 1) as int == d.len() as int);
}

/// A rendered value line parses back to its slot name and value.
proof fn lemma_value_line_round_trip(e: EntryV)
    requires
        name_serializable(e.name),
        value_serializable(e.value),
    ensures
        parse_value_line(entry_line(e)) == Some((e.name, e.value)),
{
    let l = entry_line(e);
    lemma_data_round_trip(e.value);
    match e.name {
        ValueNameV::Default => {
            assert(l =~= seq!['@', '='] + value_text(e.value));
            assert(l[0] == '@');
            assert(l[1] == '=');
            assert(l.skip(2) =~= value_text(e.value));
        },
        ValueNameV::Named(s) => {
            assert(l =~= seq!['"'] + escape_text(s) + seq!['"'] + (seq!['='] + value_text(
                e.value,
            )));
            lemma_parse_quoted_escape(seq!['"'], s, seq!['='] + value_text(e.value));
            let j = 1 + escape_text(s).len() + 1;
            assert(l[0] == '"');
            assert(l[0] != '@');
            assert(parse_quoted(l, 1) == Some((s, j as int)));
            assert(l[j as int] == '=') by {
                assert(l[j as int] == (seq!['='] + value_text(e.value))[0]);
            }
            assert(j < l.len());
            assert(l.skip(j as int + 1) =~= value_text(e.value));
        },
    }
}

/// Rendered section lines parse back to the path and deletion flag.
proof fn lemma_section_line_round_trip(path: Seq<char>)
    requires
        path.len() > 0,
        path[0] != '-',
    ensures
        parse_section_line(section_line(path)) == Some((path, false)),
        parse_section_line(del_section_line(path)) == Some((path, true)),
{
    let l = section_line(path);
    assert(l.len() >= 3);
    assert(l.last() == ']');
    assert(l[1] == path[0]);
    assert(l[1] != '-');
    assert(l.subrange(1, l.len() - 1) =~= path);

    let dl = del_section_line(path);
    assert(dl.len() >= 4);
    assert(dl.last() == ']');
    assert(dl[1] == '-');
    assert(dl.subrange(2, dl.len() - 1) =~= path);
}

/// Splitting off one clean line from a joined text.
proof fn lemma_line_framing(l: Seq<char>, rest: Seq<char>)
    requires
        clean_text(l),
    ensures
        strip_cr(take_line(l + seq!['\n'] + rest)) == l,
        rest_after_line(l + seq!['\n'] + rest) == rest,
{
    let s = l + seq!['\n'] + rest;
    assert forall|t: int| 0 <= t < l.len() implies s[t] != '\n' by {
        assert(s[t] == l[t]);
    }
    assert(s[l.len() as int] == '\n');
    lemma_take_line_at(s, l.len() as int);
    assert(take_line(s) =~= l);
    assert(rest_after_line(s) =~= rest);
    if l.len() > 0 {
        assert(l.last() != '\r');
    }
}

/// Filtering keeps a sequence whose members all pass unchanged.
proof fn lemma_filter_keep_all(s: Seq<EntryV>, pred: spec_fn(EntryV) -> bool)
    requires
        forall|i: int| 0 <= i < s.len() ==> pred(#[trigger] s[i]),
    ensures
        s.filter(pred) == s,
    decreases s.len(),
{
    reveal(Seq::filter);
    if s.len() > 0 {
        assert(forall|i: int| 0 <= i < s.drop_last().len() ==> pred(#[trigger] s.drop_last()[i]))
            by {
            assert forall|i: int|
                0 <= i < s.drop_last().len() implies pred(#[trigger] s.drop_last()[i]) by {
                assert(s.drop_last()[i] == s[i]);
            }
        }
        lemma_filter_keep_all(s.drop_last(), pred);
        assert(pred(s.last()));
        assert(s.filter(pred) =~= s);
    } else {
        assert(s.filter(pred) =~= s);
    }
}

/// Filtering a single element keeps it exactly when it passes.
proof fn lemma_filter_one(e: EntryV, pred: spec_fn(EntryV) -> bool)
    ensures
        pred(e) ==> seq![e].filter(pred) == seq![e],
        !pred(e) ==> seq![e].filter(pred) == Seq::<EntryV>::empty(),
{
    reveal(Seq::filter);
    assert(seq![e].drop_last() =~= Seq::<EntryV>::empty());
    assert(seq![e].last() == e);
    assert(Seq::<EntryV>::empty().filter(pred) == Seq::<EntryV>::empty());
    assert(seq![e].drop_last().filter(pred) == Seq::<EntryV>::empty());
    if pred(e) {
        assert(seq![e].filter(pred) =~= seq![e]);
    } else {
        assert(seq![e].filter(pred) =~= Seq::<EntryV>::empty());
    }
}

/// Processing the value lines of a key appends the non-tombstone entries
/// to the open key, while tombstone lines change nothing.
#[verifier::rlimit(100)]
proof fn lemma_run_entries(vs: Seq<EntryV>, tail: Seq<char>, d_keys: Seq<KeyV>, k: KeyV)
    requires
        forall|i: int|
            0 <= i < vs.len() ==> name_serializable(#[trigger] vs[i].name) && value_serializable(
                vs[i].value,
            ),
        crate::store::entry_names_unique(k.values + vs),
    ensures
        parse_run(
            join_lines(entry_lines(vs)) + tail,
            ParseState { done: d_keys, current: Some(k) },
        ) == parse_run(
            tail,
            ParseState {
                done: d_keys,
                current: Some(
                    KeyV {
                        values: k.values + vs.filter(|e: EntryV| !(e.value is Delete)),
                        ..k
                    },
                ),
            },
        ),
    decreases vs.len(),
{
    let pred = |e: EntryV| !(e.value is Delete);
    if vs.len() == 0 {
        assert(join_lines(entry_lines(vs)) + tail =~= tail);
        reveal(Seq::filter);
        assert(vs.filter(pred) =~= Seq::<EntryV>::empty());
        assert(k.values + vs.filter(pred) =~= k.values);
        let k2 = KeyV { values: k.values + vs.filter(pred), ..k };
        assert(k2 =~= k);
        assert(ParseState { done: d_keys, current: Some(k2) } =~= (ParseState {
            done: d_keys,
            current: Some(k),
        }));
    } else {
        let e = vs[0];
        let rest = vs.skip(1);
        assert(entry_lines(vs) == seq![entry_line(e)] + entry_lines(rest));
        lemma_join_lines_add(seq![entry_line(e)], entry_lines(rest));
        lemma_join_one(entry_line(e));
        let text = join_lines(entry_lines(vs)) + tail;
        let after = join_lines(entry_lines(rest)) + tail;
        assert(text =~= entry_line(e) + seq!['\n'] + after);
        lemma_clean_entry_line(e);
        lemma_line_framing(entry_line(e), after);
        assert(text.len() > 0) by {
            assert(entry_line(e).len() > 0);
        }
        lemma_value_line_round_trip(e);
        let st = ParseState { done: d_keys, current: Some(k) };
        let l = entry_line(e);
        assert(strip_cr(take_line(text)) == l);
        assert(rest_after_line(text) == after);
        assert(l.len() > 0);
        assert(l[0] != '[' && l[0] != ';') by {
            match e.name {
                ValueNameV::Default => {
                    assert(l[0] == '@');
                },
                ValueNameV::Named(s) => {
                    assert(l[0] == quoted_text(s)[0]);
                    assert(quoted_text(s)[0] == '"');
                },
            }
        }
        // Uniqueness facts about the first entry's name.
        assert forall|i: int| 0 <= i < k.values.len() implies (#[trigger] k.values[i]).name
            != e.name by {
            assert((k.values + vs)[i] == k.values[i]);
            assert((k.values + vs)[k.values.len() as int] == e);
            assert(k.values[i].name != e.name);
        }
        if e.value is Delete {
            assert(parse_line_step(st, l) == Some(
                ParseState {
                    done: d_keys,
                    current: Some(
                        KeyV { values: k.values.filter(|x: EntryV| x.name != e.name), ..k },
                    ),
                },
            ));
            lemma_filter_keep_all(k.values, |x: EntryV| x.name != e.name);
            assert(KeyV { values: k.values.filter(|x: EntryV| x.name != e.name), ..k } =~= k);
            assert(parse_run(text, st) == parse_run(after, st));
            assert(crate::store::entry_names_unique(k.values + rest)) by {
                assert forall|a: int, b: int|
                    0 <= a < b < (k.values + rest).len() implies #[trigger] (k.values
                    + rest)[a].name != #[trigger] (k.values + rest)[b].name by {
                    let oa = if a < k.values.len() {
                        a
                    } else {
                        a + 1
                    };
                    let ob = if b < k.values.len() {
                        b
                    } else {
                        b + 1
                    };
                    assert((k.values + rest)[a] == (k.values + vs)[oa]);
                    assert((k.values + rest)[b] == (k.values + vs)[ob]);
                    assert((k.values + vs)[oa].name != (k.values + vs)[ob].name);
                }
            }
            lemma_run_entries(rest, tail, d_keys, k);
            // A dropped tombstone leaves the filtered suffix unchanged.
            assert(vs =~= seq![e] + rest);
            Seq::filter_distributes_over_add(seq![e], rest, pred);
            lemma_filter_one(e, pred);
            assert(vs.filter(pred) =~= rest.filter(pred));
            assert(k.values + vs.filter(pred) =~= k.values + rest.filter(pred));
            let k_final = KeyV { values: k.values + vs.filter(pred), ..k };
            let k_rec = KeyV { values: k.values + rest.filter(pred), ..k };
            assert(k_final =~= k_rec);
            assert(ParseState { done: d_keys, current: Some(k_final) } =~= (ParseState {
                done: d_keys,
                current: Some(k_rec),
            }));
        } else {
            assert(!k.has_slot(e.name)) by {
                if k.has_slot(e.name) {
                    let i = k.slot_index(e.name);
                    assert(k.values[i].name == e.name);
                }
            }
            let k2 = KeyV { values: k.values.push(e), ..k };
            assert(parse_line_step(st, l) == Some(
                ParseState { done: d_keys, current: Some(k2) },
            ));
            assert(parse_run(text, st) == parse_run(
                after,
                ParseState { done: d_keys, current: Some(k2) },
            ));
            assert(crate::store::entry_names_unique(k2.values + rest)) by {
                assert(k2.values + rest =~= k.values + vs);
            }
            assert(forall|i: int|
                0 <= i < rest.len() ==> name_serializable(#[trigger] rest[i].name)
                    && value_serializable(rest[i].value)) by {
                assert forall|i: int|
                    0 <= i < rest.len() implies name_serializable(#[trigger] rest[i].name)
                    && value_serializable(rest[i].value) by {
                    assert(rest[i] == vs[i + 1]);
                }
            }
            lemma_run_entries(rest, tail, d_keys, k2);
            assert(vs =~= seq![e] + rest);
            Seq::filter_distributes_over_add(seq![e], rest, pred);
            lemma_filter_one(e, pred);
            assert(vs.filter(pred) =~= seq![e] + rest.filter(pred));
            assert(k2.values + rest.filter(pred) =~= k.values + vs.filter(pred));
            let k_final = KeyV { values: k.values + vs.filter(pred), ..k };
            let k_rec = KeyV { values: k2.values + rest.filter(pred), ..k2 };
            assert(k_final =~= k_rec);
            assert(ParseState { done: d_keys, current: Some(k_final) } =~= (ParseState {
                done: d_keys,
                current: Some(k_rec),
            }));
        }
    }
}

/// Processing the lines of one key finishes the open section and leaves
/// the key, scrubbed of tombstones, as the new open section.
#[verifier::rlimit(100)]
proof fn lemma_run_key(k: KeyV, tail: Seq<char>, st: ParseState)
    requires
        key_serializable(k),
        crate::store::entry_names_unique(k.values),
        !done_has(finish_state(st), k.path),
    ensures
        parse_run(join_lines(key_lines(k)) + tail, st) == parse_run(
            tail,
            ParseState { done: finish_state(st), current: Some(scrub_key(k)) },
        ),
{
    let d2 = finish_state(st);
    lemma_clean_section_lines(k.path);
    lemma_section_line_round_trip(k.path);
    // The open section, if any, has another path, so a live section never
    // silently continues it.
    assert(st.current matches Some(c) ==> c.path != k.path) by {
        match st.current {
            Some(c) => {
                assert(d2[d2.len() - 1] == c);
                if c.path == k.path {
                    assert(done_has(d2, k.path));
                }
            },
            None => {},
        }
    }
    assert(push_current(st).done == d2);
    if !k.deleted {
        assert(key_lines(k) == seq![section_line(k.path)] + entry_lines(k.values));
        lemma_join_lines_add(seq![section_line(k.path)], entry_lines(k.values));
        lemma_join_one(section_line(k.path));
        let text = join_lines(key_lines(k)) + tail;
        let after = join_lines(entry_lines(k.values)) + tail;
        assert(text =~= section_line(k.path) + seq!['\n'] + after);
        lemma_line_framing(section_line(k.path), after);
        let l = section_line(k.path);
        assert(text.len() > 0) by {
            assert(l.len() > 0);
        }
        assert(l[0] == '[');
        let empty_k = KeyV { path: k.path, deleted: false, values: Seq::empty() };
        assert(parse_line_step(st, l) == Some(
            ParseState { done: d2, current: Some(empty_k) },
        ));
        assert(parse_run(text, st) == parse_run(
            after,
            ParseState { done: d2, current: Some(empty_k) },
        ));
        assert(crate::store::entry_names_unique(empty_k.values + k.values)) by {
            assert(empty_k.values + k.values =~= k.values);
        }
        lemma_run_entries(k.values, tail, d2, empty_k);
        let pred = |e: EntryV| !(e.value is Delete);
        let k_rec = KeyV { values: empty_k.values + k.values.filter(pred), ..empty_k };
        assert(k_rec =~= scrub_key(k)) by {
            assert(empty_k.values + k.values.filter(pred) =~= k.values.filter(pred));
        }
        assert(ParseState { done: d2, current: Some(k_rec) } =~= (ParseState {
            done: d2,
            current: Some(scrub_key(k)),
        }));
    } else if k.values.len() == 0 {
        assert(key_lines(k) == seq![del_section_line(k.path)]);
        lemma_join_one(del_section_line(k.path));
        let text = join_lines(key_lines(k)) + tail;
        assert(text =~= del_section_line(k.path) + seq!['\n'] + tail);
        lemma_line_framing(del_section_line(k.path), tail);
        let l = del_section_line(k.path);
        assert(text.len() > 0) by {
            assert(l.len() > 0);
        }
        assert(l[0] == '[');
        let tomb = KeyV { path: k.path, deleted: true, values: Seq::empty() };
        assert(parse_line_step(st, l) == Some(ParseState { done: d2, current: Some(tomb) }));
        assert(parse_run(text, st) == parse_run(
            tail,
            ParseState { done: d2, current: Some(tomb) },
        ));
        reveal(Seq::filter);
        assert(tomb =~= scrub_key(k)) by {
            assert(k.values.filter(|e: EntryV| !(e.value is Delete)) =~= Seq::<EntryV>::empty());
        }
        assert(ParseState { done: d2, current: Some(tomb) } =~= (ParseState {
            done: d2,
            current: Some(scrub_key(k)),
        }));
    } else {
        assert(key_lines(k) == seq![del_section_line(k.path), section_line(k.path)]
            + entry_lines(k.values));
        lemma_join_lines_add(
            seq![del_section_line(k.path), section_line(k.path)],
            entry_lines(k.values),
        );
        crate::codec::lemma_join_two(del_section_line(k.path), section_line(k.path));
        let text = join_lines(key_lines(k)) + tail;
        let after1 = section_line(k.path) + seq!['\n'] + (join_lines(entry_lines(k.values))
            + tail);
        assert(text =~= del_section_line(k.path) + seq!['\n'] + after1);
        lemma_line_framing(del_section_line(k.path), after1);
        let dl = del_section_line(k.path);
        assert(text.len() > 0) by {
            assert(dl.len() > 0);
        }
        assert(dl[0] == '[');
        let tomb = KeyV { path: k.path, deleted: true, values: Seq::empty() };
        assert(parse_line_step(st, dl) == Some(ParseState { done: d2, current: Some(tomb) }));
        assert(parse_run(text, st) == parse_run(
            after1,
            ParseState { done: d2, current: Some(tomb) },
        ));
        // The live section of the replace convention continues the
        // tombstoned key.
        let st1 = ParseState { done: d2, current: Some(tomb) };
        let after2 = join_lines(entry_lines(k.values)) + tail;
        lemma_line_framing(section_line(k.path), after2);
        assert(after1 =~= section_line(k.path) + seq!['\n'] + after2);
        assert(strip_cr(take_line(after1)) == section_line(k.path));
        assert(rest_after_line(after1) == after2);
        let sl = section_line(k.path);
        assert(after1.len() > 0) by {
            assert(sl.len() > 0);
        }
        assert(sl[0] == '[');
        assert(parse_line_step(st1, sl) == Some(st1));
        assert(parse_run(after1, st1) == parse_run(after2, st1));
        lemma_run_entries(k.values, tail, d2, tomb);
        assert(crate::store::entry_names_unique(tomb.values + k.values)) by {
            assert(tomb.values + k.values =~= k.values);
        }
        let pred = |e: EntryV| !(e.value is Delete);
        let k_rec = KeyV { values: tomb.values + k.values.filter(pred), ..tomb };
        assert(k_rec =~= scrub_key(k)) by {
            assert(tomb.values + k.values.filter(pred) =~= k.values.filter(pred));
        }
        assert(ParseState { done: d2, current: Some(k_rec) } =~= (ParseState {
            done: d2,
            current: Some(scrub_key(k)),
        }));
    }
}

/// The state the parser reaches after processing the blocks of `keys`
/// from a state whose finished keys are `base`.
pub open spec fn after_keys(st: ParseState, keys: Seq<KeyV>) -> ParseState {
    if keys.len() == 0 {
        st
    } else {
        ParseState {
            done: finish_state(st) + scrub_keys(keys.drop_last()),
            current: Some(scrub_key(keys.last())),
        }
    }
}

/// Processing the blocks of all keys collects them, scrubbed, in order.
proof fn lemma_run_blocks(keys: Seq<KeyV>, tail: Seq<char>, st: ParseState)
    requires
        forall|i: int|
            0 <= i < keys.len() ==> key_serializable(#[trigger] keys[i]) && (keys[i]).wf(),
        forall|i: int, j: int|
            0 <= i < j < keys.len() ==> (#[trigger] keys[i]).path != (#[trigger] keys[j]).path,
        forall|i: int, j: int|
            0 <= i < finish_state(st).len() && 0 <= j < keys.len() ==> (#[trigger] finish_state(
                st,
            )[i]).path != (#[trigger] keys[j]).path,
    ensures
        parse_run(join_lines(key_blocks(keys)) + tail, st) == parse_run(
            tail,
            after_keys(st, keys),
        ),
    decreases keys.len(),
{
    if keys.len() == 0 {
        assert(join_lines(key_blocks(keys)) + tail =~= tail);
    } else {
        let k0 = keys[0];
        let rest = keys.skip(1);
        assert(key_blocks(keys) == key_lines(k0) + key_blocks(rest));
        lemma_join_lines_add(key_lines(k0), key_blocks(rest));
        let text = join_lines(key_blocks(keys)) + tail;
        let tail1 = join_lines(key_blocks(rest)) + tail;
        assert(text =~= join_lines(key_lines(k0)) + tail1);
        assert(!done_has(finish_state(st), k0.path)) by {
            if done_has(finish_state(st), k0.path) {
                let i = choose|i: int|
                    0 <= i < finish_state(st).len() && (#[trigger] finish_state(st)[i]).path
                        == k0.path;
                assert(finish_state(st)[i].path != keys[0].path);
            }
        }
        lemma_run_key(k0, tail1, st);
        let st1 = ParseState { done: finish_state(st), current: Some(scrub_key(k0)) };
        assert(finish_state(st1) =~= finish_state(st).push(scrub_key(k0)));
        assert(forall|i: int|
            0 <= i < rest.len() ==> key_serializable(#[trigger] rest[i]) && (rest[i]).wf()) by {
            assert forall|i: int|
                0 <= i < rest.len() implies key_serializable(#[trigger] rest[i]) && (
            rest[i]).wf() by {
                assert(rest[i] == keys[i + 1]);
            }
        }
        assert(forall|i: int, j: int|
            0 <= i < j < rest.len() ==> (#[trigger] rest[i]).path != (#[trigger] rest[j]).path)
            by {
            assert forall|i: int, j: int|
                0 <= i < j < rest.len() implies (#[trigger] rest[i]).path != (
            #[trigger] rest[j]).path by {
                assert(rest[i] == keys[i + 1] && rest[j] == keys[j + 1]);
            }
        }
        assert(forall|i: int, j: int|
            0 <= i < finish_state(st1).len() && 0 <= j < rest.len() ==> (
            #[trigger] finish_state(st1)[i]).path != (#[trigger] rest[j]).path) by {
            assert forall|i: int, j: int|
                0 <= i < finish_state(st1).len() && 0 <= j < rest.len() implies (
            #[trigger] finish_state(st1)[i]).path != (#[trigger] rest[j]).path by {
                assert(rest[j] == keys[j + 1]);
                if i < finish_state(st).len() {
                    assert(finish_state(st1)[i] == finish_state(st)[i]);
                    assert(finish_state(st)[i].path != keys[j + 1].path);
                } else {
                    assert(finish_state(st1)[i] == scrub_key(k0));
                    assert(scrub_key(k0).path == keys[0].path);
                    assert(keys[0].path != keys[j + 1].path);
                }
            }
        }
        lemma_run_blocks(rest, tail, st1);
        // Tie the recursion's end state to the stated one.
        if rest.len() == 0 {
            assert(after_keys(st1, rest) == st1);
            assert(keys.drop_last() =~= Seq::<KeyV>::empty());
            assert(scrub_keys(keys.drop_last()) =~= Seq::<KeyV>::empty());
            assert(finish_state(st) + scrub_keys(keys.drop_last()) =~= finish_state(st));
            assert(keys.last() == k0);
            assert(after_keys(st, keys) =~= st1);
        } else {
            assert(after_keys(st1, rest) == (ParseState {
                done: finish_state(st1) + scrub_keys(rest.drop_last()),
                current: Some(scrub_key(rest.last())),
            }));
            assert(rest.last() == keys.last());
            assert(finish_state(st1) + scrub_keys(rest.drop_last()) =~= finish_state(st)
                + scrub_keys(keys.drop_last())) by {
                assert(keys.drop_last() =~= seq![k0] + rest.drop_last());
                assert forall|t: int|
                    0 <= t < scrub_keys(keys.drop_last()).len() implies #[trigger] scrub_keys(
                    keys.drop_last(),
                )[t] == (seq![scrub_key(k0)] + scrub_keys(rest.drop_last()))[t] by {
                    if t == 0 {
                        assert(keys.drop_last()[0] == k0);
                    } else {
                        assert(keys.drop_last()[t] == rest.drop_last()[t - 1]);
                    }
                }
                assert(scrub_keys(keys.drop_last()) =~= seq![scrub_key(k0)] + scrub_keys(
                    rest.drop_last(),
                ));
            }
            assert(after_keys(st, keys) =~= after_keys(st1, rest));
        }
    }
}

/// The save/load round trip: the serialized text of a representable
/// registry parses back to the same registry, except that every slot
/// explicitly set to the `Delete` tombstone is absent afterwards.
pub proof fn lemma_save_load_round_trip(r: RegistryV)
    requires
        serializable(r),
    ensures
        spec_parse(registry_text(r)) == Some(scrub_keys(r.keys)),
{
    let text = registry_text(r);
    assert(registry_lines(r) == seq![header_text()] + key_blocks(r.keys));
    lemma_join_lines_add(seq![header_text()], key_blocks(r.keys));
    lemma_join_one(header_text());
    assert(text =~= header_text() + seq!['\n'] + join_lines(key_blocks(r.keys)));
    assert(clean_text(header_text())) by {
        reveal_strlit("Windows Registry Editor Version 5.00");
    }
    lemma_line_framing(header_text(), join_lines(key_blocks(r.keys)));
    assert(text.len() > 0) by {
        assert(header_text().len() > 0) by {
            reveal_strlit("Windows Registry Editor Version 5.00");
        }
    }
    let init = ParseState { done: Seq::<KeyV>::empty(), current: None };
    assert(finish_state(init) =~= Seq::<KeyV>::empty());
    assert(join_lines(key_blocks(r.keys)) + Seq::<char>::empty() =~= join_lines(
        key_blocks(r.keys),
    ));
    assert(forall|i: int|
        0 <= i < r.keys.len() ==> key_serializable(#[trigger] r.keys[i]) && (r.keys[i]).wf());
    lemma_run_blocks(r.keys, Seq::<char>::empty(), init);
    assert(parse_run(join_lines(key_blocks(r.keys)), init) == Some(after_keys(init, r.keys)));
    assert(finish_state(after_keys(init, r.keys)) =~= scrub_keys(r.keys)) by {
        if r.keys.len() == 0 {
            assert(scrub_keys(r.keys) =~= Seq::<KeyV>::empty());
        } else {
            let a = after_keys(init, r.keys);
            assert(a.done =~= scrub_keys(r.keys.drop_last()));
            assert(finish_state(a) == a.done.push(scrub_key(r.keys.last())));
            assert forall|t: int|
                0 <= t < scrub_keys(r.keys).len() implies #[trigger] scrub_keys(r.keys)[t]
                == a.done.push(scrub_key(r.keys.last()))[t] by {
                if t < r.keys.len() - 1 {
                    assert(r.keys.drop_last()[t] == r.keys[t]);
                }
            }
        }
    }
}

} // verus!
