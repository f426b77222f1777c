//! JSON emission for status responses and chat components, byte for
//! byte: the exact document the proxy puts in a Status Response or a
//! Login Disconnect packet.

use vstd::prelude::*;
use vstd::std_specs::iter::IteratorSpec;
use vstd::string::StringExecFns;

use crate::decimal::{dec_of, dec_of_int, push_dec_i32, push_dec_u32};
use crate::status::{PlayerV, PlayersV, StatusResponse, StatusV, VersionV};
use crate::strutil::push_char;
use crate::text::{texts_view, text_view, ColorName, ColorV, ObjV, RawTextComponent,
    RawTextComponentObject, TextV};

verus! {

/// The lowercase hexadecimal digit for a value below sixteen.
pub open spec fn json_hex_digit(d: nat) -> char
    recommends
        d < 16,
{
    if d < 10 {
        ((0x30 + d) as u8) as char
    } else {
        ((0x57 + d) as u8) as char
    }
}

/// How one character appears inside a JSON string: quote and backslash
/// escaped, the five short control escapes, and `\u00..` for every
/// other control character.
pub open spec fn json_escape_char(c: char) -> Seq<char> {
    if c == '"' {
        seq!['\\', '"']
    } else if c == '\\' {
        seq!['\\', '\\']
    } else if c == '\u{8}' {
        seq!['\\', 'b']
    } else if c == '\t' {
        seq!['\\', 't']
    } else if c == '\n' {
        seq!['\\', 'n']
    } else if c == '\u{c}' {
        seq!['\\', 'f']
    } else if c == '\r' {
        seq!['\\', 'r']
    } else if (c as u32) < 0x20 {
        seq!['\\', 'u', '0', '0', json_hex_digit((c as u32 / 16) as nat), json_hex_digit((
        c as u32 % 16) as nat)]
    } else {
        seq![c]
    }
}

/// A whole string body, escaped.
pub open spec fn json_escape(s: Seq<char>) -> Seq<char>
    decreases s.len(),
{
    if s.len() == 0 {
        Seq::empty()
    } else {
        json_escape_char(s[0]) + json_escape(s.drop_first())
    }
}

/// A JSON string literal: quotes around the escaped body.
pub open spec fn json_string(s: Seq<char>) -> Seq<char> {
    seq!['"'] + json_escape(s) + seq!['"']
}

/// A JSON boolean.
pub open spec fn json_bool(b: bool) -> Seq<char> {
    if b {
        "true"@
    } else {
        "false"@
    }
}

proof fn lemma_json_escape_step(s: Seq<char>, i: int)
    requires
        0 <= i < s.len(),
    ensures
        json_escape(s.take(i + 1)) == json_escape(s.take(i)) + json_escape_char(s[i]),
    decreases i,
{
    if i == 0 {
        assert(s.take(1)[0] == s[0]);
        assert(s.take(1).drop_first() =~= Seq::<char>::empty());
        assert(json_escape(Seq::<char>::empty()) == Seq::<char>::empty());
        assert(s.take(0) =~= Seq::<char>::empty());
        assert(json_escape(s.take(1)) =~= json_escape_char(s[0]));
        assert(json_escape(s.take(0)) + json_escape_char(s[0]) =~= json_escape_char(s[0]));
    } else {
        let sub = s.drop_first();
        lemma_json_escape_step(sub, i - 1);
        assert(s.take(i + 1).drop_first() =~= sub.take(i));
        assert(s.take(i).drop_first() =~= sub.take(i - 1));
        assert(s.take(i + 1)[0] == s[0]);
        assert(s.take(i)[0] == s[0]);
        assert(sub[i - 1] == s[i]);
        assert(json_escape(s.take(i + 1)) =~= json_escape(s.take(i)) + json_escape_char(s[i]));
    }
}

/// Append the escaped body of `s` to `out`.
fn push_json_escaped(out: &mut String, s: &str)
    ensures
        final(out)@ == old(out)@ + json_escape(s@),
{
    broadcast use vstd::string::axiom_spec_iter, vstd::string::next_postcondition;

    let ghost full: Seq<char> = s@;
    let ghost base: Seq<char> = out@;
    let mut it = s.chars();
    let ghost mut i: int = 0;
    proof {
        assert(full.take(0) =~= Seq::<char>::empty());
        assert(out@ =~= base + json_escape(full.take(0)));
    }
    loop
        invariant
            0 <= i <= full.len(),
            full == s@,
            base == old(out)@,
            it.remaining() == full.skip(i),
            out@ == base + json_escape(full.take(i)),
        decreases full.len() - i,
    {
        let c = match it.next() {
            None => {
                proof {
                    assert(full.take(i) =~= full);
                }
                return ;
            },
            Some(c) => c,
        };
        assert(c == full[i]);
        proof {
            lemma_json_escape_step(full, i);
        }
        let code = c as u32;
        if c == '"' {
            push_char(out, '\\');
            push_char(out, '"');
        } else if c == '\\' {
            push_char(out, '\\');
            push_char(out, '\\');
        } else if c == '\u{8}' {
            push_char(out, '\\');
            push_char(out, 'b');
        } else if c == '\t' {
            push_char(out, '\\');
            push_char(out, 't');
        } else if c == '\n' {
            push_char(out, '\\');
            push_char(out, 'n');
        } else if c == '\u{c}' {
            push_char(out, '\\');
            push_char(out, 'f');
        } else if c == '\r' {
            push_char(out, '\\');
            push_char(out, 'r');
        } else if code < 0x20 {
            push_char(out, '\\');
            push_char(out, 'u');
            push_char(out, '0');
            push_char(out, '0');
            push_char(out, hex_char((code / 16) as u8));
            push_char(out, hex_char((code % 16) as u8));
        } else {
            push_char(out, c);
        }
        proof {
            assert(out@ =~= base + json_escape(full.take(i + 1)));
            i = i + 1;
        }
    }
}

fn hex_char(d: u8) -> (r: char)
    requires
        d < 16,
    ensures
        r == json_hex_digit(d as nat),
{
    if d < 10 {
        (0x30 + d) as char
    } else {
        (0x57 + d) as char
    }
}

/// Append a whole JSON string literal for `s` to `out`.
fn push_json_string(out: &mut String, s: &str)
    ensures
        final(out)@ == old(out)@ + json_string(s@),
{
    push_char(out, '"');
    push_json_escaped(out, s);
    push_char(out, '"');
    proof {
        assert(out@ =~= old(out)@ + json_string(s@));
    }
}

/// The JSON name of a named color, as serde's snake case writes it.
pub open spec fn color_json_name(c: ColorName) -> Seq<char> {
    match c {
        ColorName::Black => "black"@,
        ColorName::DarkBlue => "dark_blue"@,
        ColorName::DarkGreen => "dark_green"@,
        ColorName::DarkAqua => "dark_aqua"@,
        ColorName::DarkRed => "dark_red"@,
        ColorName::DarkPurple => "dark_purple"@,
        ColorName::Gold => "gold"@,
        ColorName::Gray => "gray"@,
        ColorName::DarkGray => "dark_gray"@,
        ColorName::Blue => "blue"@,
        ColorName::Green => "green"@,
        ColorName::Aqua => "aqua"@,
        ColorName::Red => "red"@,
        ColorName::LightPurple => "light_purple"@,
        ColorName::Yellow => "yellow"@,
        ColorName::White => "white"@,
    }
}

/// A color in JSON: the snake-case name of a named color, or the
/// literal string of a hex color.
pub open spec fn json_of_color(c: ColorV) -> Seq<char> {
    match c {
        ColorV::Named(name) => seq!['"'] + color_json_name(name) + seq!['"'],
        ColorV::Hex(s) => json_string(s),
    }
}

/// A chat component in JSON: an object, an array, or a bare string.
pub open spec fn json_of_component(t: TextV) -> Seq<char>
    decreases t,
{
    match t {
        TextV::String(s) => json_string(s),
        TextV::Array(items) => seq!['['] + json_of_components(items) + seq![']'],
        TextV::Object(o) => json_of_object(o),
    }
}

/// A comma-separated run of components.
pub open spec fn json_of_components(items: Seq<TextV>) -> Seq<char>
    decreases items,
{
    if items.len() == 0 {
        Seq::empty()
    } else if items.len() == 1 {
        json_of_component(items[0])
    } else {
        json_of_component(items[0]) + seq![','] + json_of_components(items.drop_first())
    }
}

/// A component object in JSON, fields in declaration order, absent
/// options omitted.
pub open spec fn json_of_object(o: ObjV) -> Seq<char>
    decreases o,
{
    "{\"text\":"@ + json_string(o.text) + (match o.bold {
        Some(b) => ",\"bold\":"@ + json_bool(b),
        None => Seq::empty(),
    }) + (match o.italic {
        Some(b) => ",\"italic\":"@ + json_bool(b),
        None => Seq::empty(),
    }) + (match o.underlined {
        Some(b) => ",\"underlined\":"@ + json_bool(b),
        None => Seq::empty(),
    }) + (match o.strikethrough {
        Some(b) => ",\"strikethrough\":"@ + json_bool(b),
        None => Seq::empty(),
    }) + (match o.obfuscated {
        Some(b) => ",\"obfuscated\":"@ + json_bool(b),
        None => Seq::empty(),
    }) + (match o.color {
        Some(c) => ",\"color\":"@ + json_of_color(c),
        None => Seq::empty(),
    }) + (match o.extra {
        Some(items) => ",\"extra\":["@ + json_of_components(items) + seq![']'],
        None => Seq::empty(),
    }) + seq!['}']
}

/// The size of a component tree, for termination of the writers.
pub open spec fn tv_size(t: TextV) -> nat
    decreases t,
{
    match t {
        TextV::String(_) => 1,
        TextV::Array(items) => 1 + tvs_size(items),
        TextV::Object(o) => 1 + (match o.extra {
            Some(items) => tvs_size(items),
            None => 0,
        }),
    }
}

pub open spec fn tvs_size(items: Seq<TextV>) -> nat
    decreases items,
{
    if items.len() == 0 {
        0
    } else {
        1 + tv_size(items[0]) + tvs_size(items.drop_first())
    }
}

proof fn lemma_tvs_size_element(items: Seq<TextV>, i: int)
    requires
        0 <= i < items.len(),
    ensures
        tv_size(items[i]) < tvs_size(items),
    decreases i,
{
    if i == 0 {
    } else {
        lemma_tvs_size_element(items.drop_first(), i - 1);
        assert(items.drop_first()[i - 1] == items[i]);
    }
}

/// Append the JSON of one component to `out`.
pub fn push_json_component(out: &mut String, c: &RawTextComponent)
    ensures
        final(out)@ == old(out)@ + json_of_component(text_view(*c)),
    decreases tv_size(text_view(*c)), 2int,
{
    match c {
        RawTextComponent::String(s) => {
            push_json_string(out, s.as_str());
        },
        RawTextComponent::Array(items) => {
            push_char(out, '[');
            push_json_components(out, items);
            push_char(out, ']');
            proof {
                assert(out@ =~= old(out)@ + json_of_component(text_view(*c)));
            }
        },
        RawTextComponent::Object(o) => {
            proof {
                assert(tv_size(text_view(*c)) == tv_size(TextV::Object(crate::text::obj_view(*o))));
            }
            push_json_object(out, o);
        },
    }
}

/// Append a comma-separated run of components to `out`.
fn push_json_components(out: &mut String, items: &Vec<RawTextComponent>)
    ensures
        final(out)@ == old(out)@ + json_of_components(texts_view(items@)),
    decreases tvs_size(texts_view(items@)), 3int,
{
    let ghost views = texts_view(items@);
    let ghost base: Seq<char> = out@;
    proof {
        crate::text::lemma_texts_view_index(items@);
    }
    let n = items.len();
    let mut i: usize = 0;
    while i < n
        invariant
            0 <= i <= n,
            n == items@.len(),
            views == texts_view(items@),
            views.len() == n,
            forall|j: int| 0 <= j < n ==> #[trigger] views[j] == text_view(items@[j]),
            out@ == base + json_of_components_prefix(views, i as int),
        decreases n - i,
    {
        if i > 0 {
            push_char(out, ',');
        }
        proof {
            lemma_tvs_size_element(views, i as int);
        }
        push_json_component(out, &items[i]);
        proof {
            lemma_json_components_prefix_step(views, i as int);
            assert(out@ =~= base + json_of_components_prefix(views, i as int + 1));
        }
        i = i + 1;
    }
    proof {
        lemma_json_components_prefix_whole(views);
    }
}

/// The first `i` components of a run, rendered with their separating
/// commas.
pub open spec fn json_of_components_prefix(items: Seq<TextV>, i: int) -> Seq<char>
    decreases i,
{
    if i <= 0 {
        Seq::empty()
    } else if i == 1 {
        json_of_component(items[0])
    } else {
        json_of_components_prefix(items, i - 1) + seq![','] + json_of_component(items[i - 1])
    }
}

proof fn lemma_json_components_prefix_step(items: Seq<TextV>, i: int)
    requires
        0 <= i,
    ensures
        json_of_components_prefix(items, i + 1) == if i == 0 {
            json_of_component(items[0])
        } else {
            json_of_components_prefix(items, i) + seq![','] + json_of_component(items[i])
        },
{
}

proof fn lemma_json_components_prefix_whole(items: Seq<TextV>)
    ensures
        json_of_components_prefix(items, items.len() as int) == json_of_components(items),
    decreases items.len(),
{
    let n = items.len() as int;
    if n == 0 {
    } else if n == 1 {
    } else {
        let sub = items.drop_first();
        lemma_json_components_prefix_whole(sub);
        lemma_json_components_prefix_shift(items, n);
        assert(json_of_components(items) == json_of_component(items[0]) + seq![',']
            + json_of_components(sub));
    }
}

/// A prefix of the rendered run equals the head plus the shifted
/// prefix of the tail.
proof fn lemma_json_components_prefix_shift(items: Seq<TextV>, i: int)
    requires
        2 <= i <= items.len(),
    ensures
        json_of_components_prefix(items, i) == json_of_component(items[0]) + seq![',']
            + json_of_components_prefix(items.drop_first(), i - 1),
    decreases i,
{
    let sub = items.drop_first();
    reveal_with_fuel(json_of_components_prefix, 3);
    if i == 2 {
        assert(sub[0] == items[1]);
        assert(json_of_components_prefix(items, 2) =~= json_of_component(items[0]) + seq![',']
            + json_of_component(items[1]));
        assert(json_of_components_prefix(sub, 1) == json_of_component(sub[0]));
        assert(json_of_components_prefix(items, 2) =~= json_of_component(items[0]) + seq![',']
            + json_of_components_prefix(sub, 1));
    } else {
        lemma_json_components_prefix_shift(items, i - 1);
        assert(sub[i - 2] == items[i - 1]);
        assert((json_of_component(items[0]) + seq![','] + json_of_components_prefix(sub, i - 2))
            + seq![','] + json_of_component(items[i - 1]) =~= json_of_component(items[0])
            + seq![','] + (json_of_components_prefix(sub, i - 2) + seq![',']
            + json_of_component(sub[i - 2])));
        assert(json_of_components_prefix(items, i) =~= json_of_component(items[0]) + seq![',']
            + json_of_components_prefix(sub, i - 1));
    }
}

/// Append the JSON of a component object to `out`.
fn push_json_object(out: &mut String, o: &RawTextComponentObject)
    ensures
        final(out)@ == old(out)@ + json_of_object(crate::text::obj_view(*o)),
    decreases tv_size(TextV::Object(crate::text::obj_view(*o))), 1int,
{
    push_json_object_inner(out, o)
}

/// Append one optional boolean field: the label and the value, or
/// nothing at all.
fn push_opt_bool_field(out: &mut String, label: &str, v: &Option<bool>)
    ensures
        final(out)@ == old(out)@ + (match v {
            Some(b) => label@ + json_bool(*b),
            None => Seq::<char>::empty(),
        }),
{
    match v {
        Some(b) => {
            out.append(label);
            push_bool(out, *b);
            proof {
                vstd::seq_lib::lemma_concat_associative(old(out)@, label@, json_bool(*b));
            }
        },
        None => {
            proof {
                assert(old(out)@ + Seq::<char>::empty() =~= old(out)@);
            }
        },
    }
}

fn push_json_object_inner(out: &mut String, o: &RawTextComponentObject)
    ensures
        final(out)@ == old(out)@ + json_of_object(crate::text::obj_view(*o)),
    decreases tv_size(TextV::Object(crate::text::obj_view(*o))), 0int,
{
    let ghost ov = crate::text::obj_view(*o);
    let ghost m1: Seq<char> = "{\"text\":"@ + json_string(ov.text);
    let ghost m2: Seq<char> = match ov.bold {
        Some(b) => ",\"bold\":"@ + json_bool(b),
        None => Seq::<char>::empty(),
    };
    let ghost m3: Seq<char> = match ov.italic {
        Some(b) => ",\"italic\":"@ + json_bool(b),
        None => Seq::<char>::empty(),
    };
    let ghost m4: Seq<char> = match ov.underlined {
        Some(b) => ",\"underlined\":"@ + json_bool(b),
        None => Seq::<char>::empty(),
    };
    let ghost m5: Seq<char> = match ov.strikethrough {
        Some(b) => ",\"strikethrough\":"@ + json_bool(b),
        None => Seq::<char>::empty(),
    };
    let ghost m6: Seq<char> = match ov.obfuscated {
        Some(b) => ",\"obfuscated\":"@ + json_bool(b),
        None => Seq::<char>::empty(),
    };
    let ghost m7: Seq<char> = match ov.color {
        Some(c) => ",\"color\":"@ + json_of_color(c),
        None => Seq::<char>::empty(),
    };
    let ghost m8: Seq<char> = match ov.extra {
        Some(items) => ",\"extra\":["@ + json_of_components(items) + seq![']'],
        None => Seq::<char>::empty(),
    };
    let ghost g1 = m1;
    let ghost g2 = g1 + m2;
    let ghost g3 = g2 + m3;
    let ghost g4 = g3 + m4;
    let ghost g5 = g4 + m5;
    let ghost g6 = g5 + m6;
    let ghost g7 = g6 + m7;
    let ghost g8 = g7 + m8;
    out.append("{\"text\":");
    push_json_string(out, o.text.as_str());
    proof {
        vstd::seq_lib::lemma_concat_associative(old(out)@, "{\"text\":"@, json_string(ov.text));
        assert(out@ == old(out)@ + g1);
    }
    push_opt_bool_field(out, ",\"bold\":", &o.bold);
    proof {
        vstd::seq_lib::lemma_concat_associative(old(out)@, g1, m2);
        assert(out@ == old(out)@ + g2);
    }
    push_opt_bool_field(out, ",\"italic\":", &o.italic);
    proof {
        vstd::seq_lib::lemma_concat_associative(old(out)@, g2, m3);
        assert(out@ == old(out)@ + g3);
    }
    push_opt_bool_field(out, ",\"underlined\":", &o.underlined);
    proof {
        vstd::seq_lib::lemma_concat_associative(old(out)@, g3, m4);
        assert(out@ == old(out)@ + g4);
    }
    push_opt_bool_field(out, ",\"strikethrough\":", &o.strikethrough);
    proof {
        vstd::seq_lib::lemma_concat_associative(old(out)@, g4, m5);
        assert(out@ == old(out)@ + g5);
    }
    push_opt_bool_field(out, ",\"obfuscated\":", &o.obfuscated);
    proof {
        vstd::seq_lib::lemma_concat_associative(old(out)@, g5, m6);
        assert(out@ == old(out)@ + g6);
    }
    match &o.color {
        Some(c) => {
            out.append(",\"color\":");
            push_json_color(out, c);
            proof {
                vstd::seq_lib::lemma_concat_associative(
                    old(out)@ + g6,
                    ",\"color\":"@,
                    json_of_color(c@),
                );
                vstd::seq_lib::lemma_concat_associative(old(out)@, g6, m7);
            }
        },
        None => {
            proof {
                assert(g7 =~= g6);
            }
        },
    }
    proof {
        assert(out@ == old(out)@ + g7);
    }
    match &o.extra {
        Some(items) => {
            out.append(",\"extra\":[");
            proof {
                assert(texts_view(items@) == ov.extra->0);
            }
            push_json_components(out, items);
            push_char(out, ']');
            proof {
                vstd::seq_lib::lemma_concat_associative(
                    old(out)@ + g7,
                    ",\"extra\":["@,
                    json_of_components(texts_view(items@)),
                );
                vstd::seq_lib::lemma_concat_associative(
                    old(out)@ + g7,
                    ",\"extra\":["@ + json_of_components(texts_view(items@)),
                    seq![']'],
                );
                vstd::seq_lib::lemma_concat_associative(old(out)@, g7, m8);
            }
        },
        None => {
            proof {
                assert(g8 =~= g7);
            }
        },
    }
    proof {
        assert(out@ == old(out)@ + g8);
    }
    push_char(out, '}');
    proof {
        assert(json_of_object(ov) == g8 + seq!['}']);
        vstd::seq_lib::lemma_concat_associative(old(out)@, g8, seq!['}']);
        assert(out@ == old(out)@ + (g8 + seq!['}']));
    }
}

fn push_bool(out: &mut String, b: bool)
    ensures
        final(out)@ == old(out)@ + json_bool(b),
{
    if b {
        out.append("true");
    } else {
        out.append("false");
    }
}

fn push_json_color(out: &mut String, c: &crate::text::Color)
    ensures
        final(out)@ == old(out)@ + json_of_color(c@),
{
    match c {
        crate::text::Color::Named(name) => {
            push_char(out, '"');
            push_color_name(out, *name);
            push_char(out, '"');
            proof {
                assert(out@ =~= old(out)@ + json_of_color(c@));
            }
        },
        crate::text::Color::Hex(s) => {
            push_json_string(out, s.as_str());
        },
    }
}

fn push_color_name(out: &mut String, c: ColorName)
    ensures
        final(out)@ == old(out)@ + color_json_name(c),
{
    match c {
        ColorName::Black => out.append("black"),
        ColorName::DarkBlue => out.append("dark_blue"),
        ColorName::DarkGreen => out.append("dark_green"),
        ColorName::DarkAqua => out.append("dark_aqua"),
        ColorName::DarkRed => out.append("dark_red"),
        ColorName::DarkPurple => out.append("dark_purple"),
        ColorName::Gold => out.append("gold"),
        ColorName::Gray => out.append("gray"),
        ColorName::DarkGray => out.append("dark_gray"),
        ColorName::Blue => out.append("blue"),
        ColorName::Green => out.append("green"),
        ColorName::Aqua => out.append("aqua"),
        ColorName::Red => out.append("red"),
        ColorName::LightPurple => out.append("light_purple"),
        ColorName::Yellow => out.append("yellow"),
        ColorName::White => out.append("white"),
    }
}

/// A version block in JSON.
pub open spec fn json_of_version(v: VersionV) -> Seq<char> {
    "{\"name\":"@ + json_string(v.name) + ",\"protocol\":"@ + dec_of_int(v.protocol as int)
        + seq!['}']
}

/// One sampled player in JSON.
pub open spec fn json_of_player(p: PlayerV) -> Seq<char> {
    "{\"name\":"@ + json_string(p.name) + ",\"id\":"@ + json_string(p.id) + seq!['}']
}

/// A comma-separated run of sampled players.
pub open spec fn json_of_players_list(items: Seq<PlayerV>) -> Seq<char>
    decreases items.len(),
{
    if items.len() == 0 {
        Seq::empty()
    } else if items.len() == 1 {
        json_of_player(items[0])
    } else {
        json_of_player(items[0]) + seq![','] + json_of_players_list(items.drop_first())
    }
}

/// A players block in JSON; the sample list is always present.
pub open spec fn json_of_players(p: PlayersV) -> Seq<char> {
    "{\"max\":"@ + dec_of(p.max as nat) + ",\"online\":"@ + dec_of(p.online as nat)
        + ",\"sample\":["@ + json_of_players_list(p.sample) + "]}"@
}

/// A whole status response in JSON, fields in declaration order,
/// absent options omitted.
pub open spec fn json_of_status(s: StatusV) -> Seq<char> {
    "{\"version\":"@ + json_of_version(s.version) + (match s.players {
        Some(p) => ",\"players\":"@ + json_of_players(p),
        None => Seq::empty(),
    }) + ",\"description\":"@ + json_of_component(s.description) + (match s.favicon {
        Some(f) => ",\"favicon\":"@ + json_string(f),
        None => Seq::empty(),
    }) + seq!['}']
}

/// Render a whole status response as its JSON document.
pub fn status_to_json(s: &StatusResponse) -> (r: String)
    ensures
        r@ == json_of_status(s@),
{
    let mut out = String::new();
    out.append("{\"version\":");
    out.append("{\"name\":");
    push_json_string(&mut out, s.version.name.as_str());
    out.append(",\"protocol\":");
    push_dec_i32(&mut out, s.version.protocol);
    push_char(&mut out, '}');
    proof {
        assert(out@ =~= "{\"version\":"@ + json_of_version(s@.version));
    }
    match &s.players {
        Some(p) => {
            out.append(",\"players\":");
            out.append("{\"max\":");
            push_dec_u32(&mut out, p.max);
            out.append(",\"online\":");
            push_dec_u32(&mut out, p.online);
            out.append(",\"sample\":[");
            push_json_players(&mut out, &p.sample);
            out.append("]}");
            proof {
                assert(out@ =~= "{\"version\":"@ + json_of_version(s@.version) + ",\"players\":"@
                    + json_of_players(p@));
            }
        },
        None => {},
    }
    out.append(",\"description\":");
    push_json_component(&mut out, &s.description);
    match &s.favicon {
        Some(f) => {
            out.append(",\"favicon\":");
            push_json_string(&mut out, f.as_str());
        },
        None => {},
    }
    push_char(&mut out, '}');
    proof {
        assert(out@ =~= json_of_status(s@));
    }
    out
}

/// The first `i` players of a run, with their separating commas.
pub open spec fn json_players_prefix(items: Seq<PlayerV>, i: int) -> Seq<char>
    decreases i,
{
    if i <= 0 {
        Seq::empty()
    } else if i == 1 {
        json_of_player(items[0])
    } else {
        json_players_prefix(items, i - 1) + seq![','] + json_of_player(items[i - 1])
    }
}

proof fn lemma_json_players_prefix_whole(items: Seq<PlayerV>)
    ensures
        json_players_prefix(items, items.len() as int) == json_of_players_list(items),
    decreases items.len(),
{
    let n = items.len() as int;
    if n <= 1 {
    } else {
        let sub = items.drop_first();
        lemma_json_players_prefix_whole(sub);
        lemma_json_players_prefix_shift(items, n);
    }
}

proof fn lemma_json_players_prefix_shift(items: Seq<PlayerV>, i: int)
    requires
        2 <= i <= items.len(),
    ensures
        json_players_prefix(items, i) == json_of_player(items[0]) + seq![',']
            + json_players_prefix(items.drop_first(), i - 1),
    decreases i,
{
    let sub = items.drop_first();
    reveal_with_fuel(json_players_prefix, 3);
    if i == 2 {
        assert(sub[0] == items[1]);
        assert(json_players_prefix(items, 2) =~= json_of_player(items[0]) + seq![',']
            + json_players_prefix(sub, 1));
    } else {
        lemma_json_players_prefix_shift(items, i - 1);
        assert(sub[i - 2] == items[i - 1]);
        assert((json_of_player(items[0]) + seq![','] + json_players_prefix(sub, i - 2)) + seq![',']
            + json_of_player(items[i - 1]) =~= json_of_player(items[0]) + seq![','] + (
        json_players_prefix(sub, i - 2) + seq![','] + json_of_player(sub[i - 2])));
        assert(json_players_prefix(items, i) =~= json_of_player(items[0]) + seq![',']
            + json_players_prefix(sub, i - 1));
    }
}

/// Append a comma-separated run of players to `out`.
fn push_json_players(out: &mut String, items: &Vec<crate::status::Player>)
    ensures
        final(out)@ == old(out)@ + json_of_players_list(
            items@.map_values(|p: crate::status::Player| p@),
        ),
{
    let ghost views = items@.map_values(|p: crate::status::Player| p@);
    let ghost base: Seq<char> = out@;
    let n = items.len();
    let mut i: usize = 0;
    while i < n
        invariant
            0 <= i <= n,
            n == items@.len(),
            views == items@.map_values(|p: crate::status::Player| p@),
            views.len() == n,
            out@ == base + json_players_prefix(views, i as int),
        decreases n - i,
    {
        if i > 0 {
            push_char(out, ',');
        }
        out.append("{\"name\":");
        push_json_string(out, items[i].name.as_str());
        out.append(",\"id\":");
        push_json_string(out, items[i].id.as_str());
        push_char(out, '}');
        proof {
            assert(views[i as int] == items@[i as int]@);
            assert(out@ =~= base + json_players_prefix(views, i as int + 1));
        }
        i = i + 1;
    }
    proof {
        lemma_json_players_prefix_whole(views);
    }
}

} // verus!
