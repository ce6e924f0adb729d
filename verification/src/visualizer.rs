//! Rendering a topology description as a graph-description-language
//! document: a composite becomes a labelled cluster holding its
//! children, a leaf becomes a record-shaped node listing its declared
//! connection points. The exact text of the rendering is specified
//! character by character.

use vstd::prelude::*;
use crate::probe::{ConstraintData, SomaData};

verus! {

/// One hexadecimal digit as a character, lower case.
pub open spec fn spec_hex_char(d: nat) -> char {
    if d == 0 {
        '0'
    } else if d == 1 {
        '1'
    } else if d == 2 {
        '2'
    } else if d == 3 {
        '3'
    } else if d == 4 {
        '4'
    } else if d == 5 {
        '5'
    } else if d == 6 {
        '6'
    } else if d == 7 {
        '7'
    } else if d == 8 {
        '8'
    } else if d == 9 {
        '9'
    } else if d == 10 {
        'a'
    } else if d == 11 {
        'b'
    } else if d == 12 {
        'c'
    } else if d == 13 {
        'd'
    } else if d == 14 {
        'e'
    } else {
        'f'
    }
}

/// The lowest `width` hexadecimal digits of a number, most
/// significant first, zero-padded.
pub open spec fn spec_hex(n: nat, width: nat) -> Seq<char>
    decreases width,
{
    if width == 0 {
        Seq::<char>::empty()
    } else {
        spec_hex(n / 16, (width - 1) as nat).push(spec_hex_char(n % 16))
    }
}

/// The canonical hyphenated text of a handle's 128-bit identity:
/// thirty-two lower-case hexadecimal digits in five groups of 8, 4,
/// 4, 4 and 12.
pub open spec fn spec_handle_text(n: nat) -> Seq<char> {
    spec_hex(n / 0x1000000000000000000000000, 8) + "-"@ + spec_hex(
        n / 0x100000000000000000000,
        4,
    ) + "-"@ + spec_hex(n / 0x10000000000000000, 4) + "-"@ + spec_hex(n / 0x1000000000000, 4)
        + "-"@ + spec_hex(n, 12)
}

/// One hexadecimal digit as text.
fn hex_digit_str(d: u128) -> (r: &'static str)
    requires
        d < 16,
    ensures
        r@ == seq![spec_hex_char(d as nat)],
{
    proof {
        reveal_strlit("0");
        reveal_strlit("1");
        reveal_strlit("2");
        reveal_strlit("3");
        reveal_strlit("4");
        reveal_strlit("5");
        reveal_strlit("6");
        reveal_strlit("7");
        reveal_strlit("8");
        reveal_strlit("9");
        reveal_strlit("a");
        reveal_strlit("b");
        reveal_strlit("c");
        reveal_strlit("d");
        reveal_strlit("e");
        reveal_strlit("f");
    }
    if d == 0 {
        "0"
    } else if d == 1 {
        "1"
    } else if d == 2 {
        "2"
    } else if d == 3 {
        "3"
    } else if d == 4 {
        "4"
    } else if d == 5 {
        "5"
    } else if d == 6 {
        "6"
    } else if d == 7 {
        "7"
    } else if d == 8 {
        "8"
    } else if d == 9 {
        "9"
    } else if d == 10 {
        "a"
    } else if d == 11 {
        "b"
    } else if d == 12 {
        "c"
    } else if d == 13 {
        "d"
    } else if d == 14 {
        "e"
    } else {
        "f"
    }
}

/// Render the lowest `width` hexadecimal digits of a number, most
/// significant first, zero-padded.
fn hex_fixed(n: u128, width: usize) -> (r: String)
    ensures
        r@ == spec_hex(n as nat, width as nat),
    decreases width,
{
    if width == 0 {
        String::new()
    } else {
        let mut s = hex_fixed(n / 16, width - 1);
        s.append(hex_digit_str(n % 16));
        s
    }
}

/// Render a handle's identity in its canonical hyphenated form.
pub fn handle_text(n: u128) -> (r: String)
    ensures
        r@ == spec_handle_text(n as nat),
{
    let mut out = hex_fixed(n / 0x1000000000000000000000000, 8);
    out.append("-");
    let g2 = hex_fixed(n / 0x100000000000000000000, 4);
    out.append(g2.as_str());
    out.append("-");
    let g3 = hex_fixed(n / 0x10000000000000000, 4);
    out.append(g3.as_str());
    out.append("-");
    let g4 = hex_fixed(n / 0x1000000000000, 4);
    out.append(g4.as_str());
    out.append("-");
    let g5 = hex_fixed(n, 12);
    out.append(g5.as_str());
    out
}

/// A name with the record-label markers `<` and `>` escaped by a
/// backslash, so that a name cannot be mistaken for a port.
pub open spec fn spec_escaped(s: Seq<char>) -> Seq<char>
    decreases s.len(),
{
    if s.len() == 0 {
        Seq::<char>::empty()
    } else {
        spec_escaped(s.drop_last()) + (if s.last() == '<' {
            seq!['\\', '<']
        } else if s.last() == '>' {
            seq!['\\', '>']
        } else {
            seq![s.last()]
        })
    }
}

/// Append `name` to `out`, escaping the record-label markers.
fn append_escaped(out: &mut String, name: &str)
    ensures
        final(out)@ == old(out)@ + spec_escaped(name@),
{
    let n = name.unicode_len();
    let mut i: usize = 0;
    while i < n
        invariant
            n == name@.len(),
            i <= n,
            out@ == old(out)@ + spec_escaped(name@.take(i as int)),
        decreases n - i,
    {
        let c = name.get_char(i);
        if c == '<' {
            out.append("\\<");
            proof {
                reveal_strlit("\\<");
            }
        } else if c == '>' {
            out.append("\\>");
            proof {
                reveal_strlit("\\>");
            }
        } else {
            let piece = name.substring_char(i, i + 1);
            out.append(piece);
            proof {
                assert(piece@ =~= seq![name@[i as int]]);
            }
        }
        proof {
            assert(name@.take(i + 1).drop_last() =~= name@.take(i as int));
            assert(name@.take(i + 1).last() == name@[i as int]);
            assert(out@ =~= old(out)@ + spec_escaped(name@.take(i + 1)));
        }
        i += 1;
    }
    proof {
        assert(name@.take(n as int) =~= name@);
    }
}

/// The label of one connection cell in a record node: the variant
/// under a port prefixed by `tag`.
pub open spec fn spec_cell(c: ConstraintData, tag: Seq<char>) -> Seq<char> {
    let variant = (match c {
        ConstraintData::One { variant, .. } => variant,
        ConstraintData::Variadic { variant, .. } => variant,
    });
    "<"@ + tag + "_"@ + variant@ + "> "@ + variant@
}

/// A whole record row: the cells of the given constraints, in order,
/// separated by ` | `.
pub open spec fn spec_row(cs: Seq<ConstraintData>, tag: Seq<char>) -> Seq<char>
    decreases cs.len(),
{
    if cs.len() == 0 {
        Seq::<char>::empty()
    } else if cs.len() == 1 {
        spec_cell(cs[0], tag)
    } else {
        spec_row(cs.drop_last(), tag) + " | "@ + spec_cell(cs.last(), tag)
    }
}

/// The rendering of one described node (and, for a composite,
/// everything inside it).
pub open spec fn spec_render_soma(d: SomaData) -> Seq<char>
    decreases d,
{
    match d {
        SomaData::Organelle { nucleus, somas, uuid, name } => "subgraph cluster_"@
            + spec_handle_text(uuid.id() as nat) + " {\ngraph [style=rounded, label=\""@ + name@
            + "\"];\n"@ + spec_render_soma(*nucleus) + spec_render_list(somas@) + "}\n"@,
        SomaData::Axon { terminals, dendrites, uuid, name } => "\""@ + spec_handle_text(
            uuid.id() as nat,
        ) + "\" [label=\"<name> "@ + spec_escaped(name@) + " | { "@ + spec_row(terminals@, "t"@)
            + " } | { "@ + spec_row(dendrites@, "d"@)
            + " }\", shape=Mrecord, style=rounded];\n"@,
        SomaData::Soma { synapse, name } => "\""@ + name@ + "\" [label=\"<name> "@ + name@
            + " | "@ + synapse.0@ + "\", shape=Mrecord, style=rounded];\n"@,
    }
}

/// The concatenated renderings of a sequence of described nodes.
pub open spec fn spec_render_list(ds: Seq<SomaData>) -> Seq<char>
    decreases ds,
{
    if ds.len() == 0 {
        Seq::<char>::empty()
    } else {
        spec_render_list(ds.drop_last()) + spec_render_soma(ds.last())
    }
}

/// The whole document: a directed graph holding the rendering of the
/// root node.
pub open spec fn spec_render_dot(d: SomaData) -> Seq<char> {
    "digraph {\n"@ + spec_render_soma(d) + "}\n"@
}

/// Append one record row for the given constraints to `out`.
fn render_row(out: &mut String, cs: &Vec<ConstraintData>, tag: &str)
    ensures
        final(out)@ == old(out)@ + spec_row(cs@, tag@),
{
    let mut i: usize = 0;
    while i < cs.len()
        invariant
            i <= cs.len(),
            out@ == old(out)@ + spec_row(cs@.take(i as int), tag@),
        decreases cs.len() - i,
    {
        if i > 0 {
            out.append(" | ");
        }
        out.append("<");
        out.append(tag);
        out.append("_");
        match &cs[i] {
            ConstraintData::One { variant, .. } => {
                out.append(variant.as_str());
                out.append("> ");
                out.append(variant.as_str());
            },
            ConstraintData::Variadic { variant, .. } => {
                out.append(variant.as_str());
                out.append("> ");
                out.append(variant.as_str());
            },
        }
        proof {
            assert(cs@.take(i + 1).drop_last() =~= cs@.take(i as int));
            assert(cs@.take(i + 1).last() == cs@[i as int]);
            assert(out@ =~= old(out)@ + spec_row(cs@.take(i + 1), tag@));
        }
        i += 1;
    }
    proof {
        assert(cs@.take(cs@.len() as int) =~= cs@);
    }
}

/// Render one described node, appending to `out`; a composite brings
/// its nucleus and all its other children with it.
#[verifier::loop_isolation(false)]
fn render_soma_into(out: &mut String, d: &SomaData)
    ensures
        final(out)@ == old(out)@ + spec_render_soma(*d),
    decreases *d,
{
    match d {
        SomaData::Organelle { nucleus, somas, uuid, name } => {
            out.append("subgraph cluster_");
            let num = handle_text(uuid.bits());
            out.append(num.as_str());
            out.append(" {\ngraph [style=rounded, label=\"");
            out.append(name.as_str());
            out.append("\"];\n");
            render_soma_into(out, nucleus);
            let ghost mid = out@;
            let mut i: usize = 0;
            while i < somas.len()
                invariant
                    i <= somas.len(),
                    out@ == mid + spec_render_list(somas@.take(i as int)),
                decreases somas.len() - i,
            {
                proof {
                    assert(decreases_to!(*d => *somas));
                    assert(decreases_to!(*somas => somas@));
                    assert(decreases_to!(somas@ => somas@[i as int]));
                    assert(decreases_to!(*d => somas@[i as int]));
                }
                render_soma_into(out, &somas[i]);
                proof {
                    assert(somas@.take(i + 1).drop_last() =~= somas@.take(i as int));
                    assert(somas@.take(i + 1).last() == somas@[i as int]);
                }
                i += 1;
            }
            proof {
                assert(somas@.take(somas@.len() as int) =~= somas@);
            }
            out.append("}\n");
            proof {
                assert(out@ =~= old(out)@ + spec_render_soma(*d));
            }
        },
        SomaData::Axon { terminals, dendrites, uuid, name } => {
            out.append("\"");
            let num = handle_text(uuid.bits());
            out.append(num.as_str());
            out.append("\" [label=\"<name> ");
            append_escaped(out, name.as_str());
            out.append(" | { ");
            render_row(out, terminals, "t");
            out.append(" } | { ");
            render_row(out, dendrites, "d");
            out.append(" }\", shape=Mrecord, style=rounded];\n");
            proof {
                assert(out@ =~= old(out)@ + spec_render_soma(*d));
            }
        },
        SomaData::Soma { synapse, name } => {
            out.append("\"");
            out.append(name.as_str());
            out.append("\" [label=\"<name> ");
            out.append(name.as_str());
            out.append(" | ");
            out.append(synapse.0.as_str());
            out.append("\", shape=Mrecord, style=rounded];\n");
            proof {
                assert(out@ =~= old(out)@ + spec_render_soma(*d));
            }
        },
    }
}

/// Render a whole topology description as a graph-description
/// document.
pub fn render_dot(data: &SomaData) -> (r: String)
    ensures
        r@ == spec_render_dot(*data),
{
    let mut out = String::from_str("digraph {\n");
    render_soma_into(&mut out, data);
    out.append("}\n");
    proof {
        assert(out@ =~= spec_render_dot(*data));
    }
    out
}

} // verus!
