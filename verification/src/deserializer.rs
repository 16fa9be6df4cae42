//! Token decoder: consumes ABX primitives token by token, reconstructs the
//! nested tag and attribute structure, emits the XML text, and records the
//! per-attribute byte ranges ("policies") and the privileged insertion
//! offset that the offset patcher uses.
//!
//! The decoded text is held as a sequence of output pieces: runs of text,
//! plus the raw bits of float and double attribute values, whose textual
//! form the caller supplies when assembling the final document.

use crate::data_input::{
    be16, be32, be64, sbe32, sbe64, spec_read_interned, spec_read_utf, FastDataInput, GInterned,
    GUtf,
};
use crate::render::{
    base64_encode, base64_std_of, dec_seq_signed, encode_xml_entities, escape_xml, hex_encode_upper,
    hex_seq, hex_upper_of, push_dec_i64, push_hex_u64,
};
use crate::{AbxError, GAbxError, GPolicy, Policy};
use crate::{ATTRIBUTE, CDSECT, COMMENT, DOCDECL, END_DOCUMENT, END_TAG, ENTITY_REF};
use crate::{IGNORABLE_WHITESPACE, PROCESSING_INSTRUCTION, START_DOCUMENT, START_TAG, TEXT};
use crate::{PROTOCOL_MAGIC_VERSION_0, TYPE_BOOLEAN_FALSE, TYPE_BOOLEAN_TRUE};
use crate::{TYPE_BYTES_BASE64, TYPE_BYTES_HEX, TYPE_DOUBLE, TYPE_FLOAT, TYPE_INT, TYPE_INT_HEX};
use crate::{TYPE_LONG, TYPE_LONG_HEX, TYPE_STRING, TYPE_STRING_INTERNED};
use vstd::prelude::*;
use vstd::string::StringExecFns;

verus! {

/// One piece of decoded output: a run of text, or the raw bits of one
/// float or double attribute value, to be rendered by the caller.
pub enum OutPiece {
    Text(String),
    Float(u32),
    Double(u64),
}

/// Ghost mirror of `OutPiece`.
pub ghost enum GPiece {
    Text(Seq<char>),
    Float(u32),
    Double(u64),
}

impl View for OutPiece {
    type V = GPiece;

    open spec fn view(&self) -> GPiece {
        match self {
            OutPiece::Text(s) => GPiece::Text(s@),
            OutPiece::Float(b) => GPiece::Float(*b),
            OutPiece::Double(b) => GPiece::Double(*b),
        }
    }
}

impl DeepView for OutPiece {
    type V = GPiece;

    open spec fn deep_view(&self) -> GPiece {
        self.view()
    }
}

/// The decoder state the contracts speak of: cursor, interned-string
/// table, output pieces, policy records, and the two tag-bookkeeping
/// fields of the restriction-insertion protocol.
#[verifier::ext_equal]
pub ghost struct DecView {
    pub pos: int,
    pub table: Seq<Seq<char>>,
    pub pieces: Seq<GPiece>,
    pub policies: Seq<GPolicy>,
    pub restriction_node_offset: u64,
    pub seen_restrictions_user: bool,
    pub collect: bool,
}

/// One dispatch step's outcome: the state after, the error if the step
/// failed, and whether decoding is to stop.
pub ghost struct StepRes {
    pub st: DecView,
    pub err: Option<GAbxError>,
    pub stop: bool,
}

/// The XML declaration written once before the first token.
pub open spec fn xml_declaration() -> Seq<char> {
    "<?xml version=\"1.0\" encoding=\"UTF-8\"?>"@
}

/// The four-byte ABX signature.
pub open spec fn magic_seq() -> Seq<u8> {
    seq![0x41u8, 0x42u8, 0x58u8, 0x00u8]
}

/// Outcome of decoding one attribute value at a position: the output piece
/// it renders to, the position after, and the interned table after.
pub ghost enum GAttrVal {
    Got(GPiece, int, Seq<Seq<char>>),
    Fail(GAbxError, int),
}

/// What one attribute value of the given type nibble decodes to at `p`:
/// the rendering each type tag is documented to produce, or the error for
/// a short read or an unknown type nibble.
#[verifier::opaque]
pub open spec fn spec_attr_value(d: Seq<u8>, p: int, tbl: Seq<Seq<char>>, type_info: u8) -> GAttrVal {
    if type_info == TYPE_STRING {
        match spec_read_utf(d, p) {
            GUtf::Got(s, p2) => GAttrVal::Got(GPiece::Text(escape_xml(s)), p2, tbl),
            GUtf::Fail(e, p2) => GAttrVal::Fail(e, p2),
        }
    } else if type_info == TYPE_STRING_INTERNED {
        match spec_read_interned(d, p, tbl) {
            GInterned::Got(s, p2, t2) => GAttrVal::Got(GPiece::Text(escape_xml(s)), p2, t2),
            GInterned::Fail(e, p2) => GAttrVal::Fail(e, p2),
        }
    } else if type_info == TYPE_INT {
        if p + 4 <= d.len() {
            GAttrVal::Got(GPiece::Text(dec_seq_signed(sbe32(d, p))), p + 4, tbl)
        } else {
            GAttrVal::Fail(GAbxError::ReadError("int"@), p)
        }
    } else if type_info == TYPE_INT_HEX {
        if p + 4 <= d.len() {
            GAttrVal::Got(GPiece::Text("0x"@ + hex_seq(be32(d, p) as nat)), p + 4, tbl)
        } else {
            GAttrVal::Fail(GAbxError::ReadError("int"@), p)
        }
    } else if type_info == TYPE_LONG {
        if p + 8 <= d.len() {
            GAttrVal::Got(GPiece::Text(dec_seq_signed(sbe64(d, p))), p + 8, tbl)
        } else {
            GAttrVal::Fail(GAbxError::ReadError("long"@), p)
        }
    } else if type_info == TYPE_LONG_HEX {
        if p + 8 <= d.len() {
            GAttrVal::Got(GPiece::Text("0x"@ + hex_seq(be64(d, p) as nat)), p + 8, tbl)
        } else {
            GAttrVal::Fail(GAbxError::ReadError("long"@), p)
        }
    } else if type_info == TYPE_FLOAT {
        if p + 4 <= d.len() {
            GAttrVal::Got(GPiece::Float(be32(d, p) as u32), p + 4, tbl)
        } else {
            GAttrVal::Fail(GAbxError::ReadError("int"@), p)
        }
    } else if type_info == TYPE_DOUBLE {
        if p + 8 <= d.len() {
            GAttrVal::Got(GPiece::Double(be64(d, p) as u64), p + 8, tbl)
        } else {
            GAttrVal::Fail(GAbxError::ReadError("long"@), p)
        }
    } else if type_info == TYPE_BOOLEAN_TRUE {
        GAttrVal::Got(GPiece::Text("true"@), p, tbl)
    } else if type_info == TYPE_BOOLEAN_FALSE {
        GAttrVal::Got(GPiece::Text("false"@), p, tbl)
    } else if type_info == TYPE_BYTES_HEX {
        if p + 2 > d.len() {
            GAttrVal::Fail(GAbxError::ReadError("short"@), p)
        } else {
            let n = be16(d, p);
            if p + 2 + n > d.len() {
                GAttrVal::Fail(GAbxError::ReadError("bytes"@), p + 2)
            } else {
                GAttrVal::Got(GPiece::Text(hex_upper_of(d.subrange(p + 2, p + 2 + n))), p + 2 + n, tbl)
            }
        }
    } else if type_info == TYPE_BYTES_BASE64 {
        if p + 2 > d.len() {
            GAttrVal::Fail(GAbxError::ReadError("short"@), p)
        } else {
            let n = be16(d, p);
            if p + 2 + n > d.len() {
                GAttrVal::Fail(GAbxError::ReadError("bytes"@), p + 2)
            } else {
                GAttrVal::Got(GPiece::Text(base64_std_of(d.subrange(p + 2, p + 2 + n))), p + 2 + n, tbl)
            }
        }
    } else {
        GAttrVal::Fail(GAbxError::UnknownAttributeType(type_info), p)
    }
}

/// What decoding one attribute does, entered with the cursor just past the
/// attribute's token byte: record the start offset (the token byte
/// itself), read the interned name, emit ` name="`, decode the value per
/// its type nibble, record the byte range as a policy when collection is
/// on, and emit the closing quote. On a value error the ` name="` text
/// already emitted stays.
#[verifier::opaque]
pub open spec fn spec_attr(d: Seq<u8>, st: DecView, token: u8) -> StepRes {
    let start = st.pos - 1;
    match spec_read_interned(d, st.pos, st.table) {
        GInterned::Fail(e, p2) => StepRes {
            st: DecView { pos: p2, ..st },
            err: Some(e),
            stop: true,
        },
        GInterned::Got(name, p2, tbl2) => {
            let pieces1 = st.pieces.push(GPiece::Text(" "@ + name + "=\""@));
            match spec_attr_value(d, p2, tbl2, token & 0xF0) {
                GAttrVal::Fail(e, p3) => StepRes {
                    st: DecView { pos: p3, table: tbl2, pieces: pieces1, ..st },
                    err: Some(e),
                    stop: true,
                },
                GAttrVal::Got(piece, p3, tbl3) => {
                    let pols = if st.collect {
                        st.policies.push(
                            GPolicy {
                                name: name,
                                start_offset: start as u32,
                                end_offset: p3 as u32,
                            },
                        )
                    } else {
                        st.policies
                    };
                    StepRes {
                        st: DecView {
                            pos: p3,
                            table: tbl3,
                            pieces: pieces1.push(piece).push(GPiece::Text("\""@)),
                            policies: pols,
                            ..st
                        },
                        err: None,
                        stop: false,
                    }
                },
            }
        },
    }
}

/// The attribute lookahead loop after a start tag: while the byte at the
/// cursor has the attribute command nibble, decode that attribute; the
/// first byte that does not is left for the next token. Ends at
/// end-of-stream too.
pub open spec fn spec_attr_loop(d: Seq<u8>, st: DecView) -> StepRes
    decreases d.len() - st.pos
        when 0 <= st.pos <= d.len()
{
    if st.pos >= d.len() {
        StepRes { st, err: None, stop: false }
    } else {
        let tok = d[st.pos];
        if tok & 0x0F == ATTRIBUTE {
            let r = spec_attr(d, DecView { pos: st.pos + 1, ..st }, tok);
            if r.err is Some {
                r
            } else if st.pos < r.st.pos && r.st.pos <= d.len() {
                spec_attr_loop(d, r.st)
            } else {
                r
            }
        } else {
            StepRes { st, err: None, stop: false }
        }
    }
}

/// One step of the top-level decode loop: read one token byte and dispatch
/// on its command nibble, as the token decoder's state machine prescribes.
#[verifier::opaque]
pub open spec fn spec_token(d: Seq<u8>, st: DecView) -> StepRes {
    if st.pos >= d.len() {
        StepRes { st, err: Some(GAbxError::ReadError("byte"@)), stop: true }
    } else {
        let token = d[st.pos];
        let command = token & 0x0F;
        let t = token & 0xF0;
        let st0 = DecView { pos: st.pos + 1, ..st };
        if command == START_DOCUMENT {
            StepRes { st: st0, err: None, stop: false }
        } else if command == END_DOCUMENT {
            StepRes { st: st0, err: None, stop: true }
        } else if command == START_TAG {
            match spec_read_interned(d, st0.pos, st0.table) {
                GInterned::Fail(e, p2) => StepRes {
                    st: DecView { pos: p2, ..st0 },
                    err: Some(e),
                    stop: true,
                },
                GInterned::Got(name, p2, tbl2) => {
                    let seen2 = st0.seen_restrictions_user || name == "restrictions_user"@;
                    let ro2 = if name == "restrictions"@ && seen2 {
                        p2 as u64
                    } else {
                        st0.restriction_node_offset
                    };
                    let st1 = DecView {
                        pos: p2,
                        table: tbl2,
                        pieces: st0.pieces.push(GPiece::Text("<"@ + name)),
                        seen_restrictions_user: seen2,
                        restriction_node_offset: ro2,
                        ..st0
                    };
                    let r = spec_attr_loop(d, st1);
                    if r.err is Some {
                        r
                    } else {
                        StepRes {
                            st: DecView { pieces: r.st.pieces.push(GPiece::Text(">"@)), ..r.st },
                            err: None,
                            stop: false,
                        }
                    }
                },
            }
        } else if command == END_TAG {
            match spec_read_interned(d, st0.pos, st0.table) {
                GInterned::Fail(e, p2) => StepRes {
                    st: DecView { pos: p2, ..st0 },
                    err: Some(e),
                    stop: true,
                },
                GInterned::Got(name, p2, tbl2) => StepRes {
                    st: DecView {
                        pos: p2,
                        table: tbl2,
                        pieces: st0.pieces.push(GPiece::Text("</"@ + name + ">"@)),
                        ..st0
                    },
                    err: None,
                    stop: false,
                },
            }
        } else if command == TEXT {
            if t == TYPE_STRING {
                match spec_read_utf(d, st0.pos) {
                    GUtf::Fail(e, p2) => StepRes {
                        st: DecView { pos: p2, ..st0 },
                        err: Some(e),
                        stop: true,
                    },
                    GUtf::Got(s, p2) => StepRes {
                        st: DecView {
                            pos: p2,
                            pieces: if s.len() > 0 {
                                st0.pieces.push(GPiece::Text(escape_xml(s)))
                            } else {
                                st0.pieces
                            },
                            ..st0
                        },
                        err: None,
                        stop: false,
                    },
                }
            } else {
                StepRes { st: st0, err: None, stop: false }
            }
        } else if command == CDSECT {
            spec_wrapped_text(d, st0, t, "<![CDATA["@, "]]>"@)
        } else if command == COMMENT {
            spec_wrapped_text(d, st0, t, "<!--"@, "-->"@)
        } else if command == PROCESSING_INSTRUCTION {
            spec_wrapped_text(d, st0, t, "<?"@, "?>"@)
        } else if command == DOCDECL {
            spec_wrapped_text(d, st0, t, "<!DOCTYPE "@, ">"@)
        } else if command == ENTITY_REF {
            spec_wrapped_text(d, st0, t, "&"@, ";"@)
        } else if command == IGNORABLE_WHITESPACE {
            spec_wrapped_text(d, st0, t, ""@, ""@)
        } else {
            StepRes { st: st0, err: None, stop: false }
        }
    }
}

/// The shared shape of the commands that read one plain string and emit it
/// verbatim between fixed delimiters (and of ignorable whitespace, whose
/// delimiters are empty): a no-op unless the token's type nibble is the
/// plain-string type.
#[verifier::opaque]
pub open spec fn spec_wrapped_text(
    d: Seq<u8>,
    st0: DecView,
    t: u8,
    before: Seq<char>,
    after: Seq<char>,
) -> StepRes {
    if t == TYPE_STRING {
        match spec_read_utf(d, st0.pos) {
            GUtf::Fail(e, p2) => StepRes { st: DecView { pos: p2, ..st0 }, err: Some(e), stop: true },
            GUtf::Got(s, p2) => StepRes {
                st: DecView {
                    pos: p2,
                    pieces: st0.pieces.push(GPiece::Text(before + s + after)),
                    ..st0
                },
                err: None,
                stop: false,
            },
        }
    } else {
        StepRes { st: st0, err: None, stop: false }
    }
}

/// Outcome of a whole decode run: the final state and the warning recorded
/// if a token failed to parse (decoding then stopped early, keeping the
/// output already emitted).
pub ghost struct RunRes {
    pub st: DecView,
    pub warning: Option<GAbxError>,
}

/// The top-level decode loop: read and dispatch tokens until end-of-stream
/// or an end-document token; a failed token stops the loop and is recorded
/// as a warning rather than propagated.
pub open spec fn spec_run(d: Seq<u8>, st: DecView) -> RunRes
    decreases d.len() - st.pos
        when 0 <= st.pos <= d.len()
{
    if st.pos >= d.len() {
        RunRes { st, warning: None }
    } else {
        let r = spec_token(d, st);
        if r.err is Some {
            RunRes { st: r.st, warning: r.err }
        } else if r.stop {
            RunRes { st: r.st, warning: None }
        } else if st.pos < r.st.pos && r.st.pos <= d.len() {
            spec_run(d, r.st)
        } else {
            RunRes { st: r.st, warning: None }
        }
    }
}

/// How many pieces of the output are float or double bits.
pub open spec fn float_count(ps: Seq<GPiece>) -> nat
    decreases ps.len(),
{
    if ps.len() == 0 {
        0
    } else {
        (match ps[0] {
            GPiece::Text(_) => 0nat,
            GPiece::Float(_) => 1nat,
            GPiece::Double(_) => 1nat,
        }) + float_count(ps.skip(1))
    }
}

/// The text of the output pieces: text pieces stand as they are, and each
/// float or double piece takes the next entry of `fs`, the caller-supplied
/// renderings, in order.
pub open spec fn flat_with(ps: Seq<GPiece>, fs: Seq<Seq<char>>) -> Seq<char>
    decreases ps.len(),
{
    if ps.len() == 0 {
        Seq::empty()
    } else {
        match ps[0] {
            GPiece::Text(t) => t + flat_with(ps.skip(1), fs),
            GPiece::Float(_) => (if fs.len() > 0 {
                fs[0]
            } else {
                Seq::empty()
            }) + flat_with(ps.skip(1), if fs.len() > 0 {
                fs.skip(1)
            } else {
                fs
            }),
            GPiece::Double(_) => (if fs.len() > 0 {
                fs[0]
            } else {
                Seq::empty()
            }) + flat_with(ps.skip(1), if fs.len() > 0 {
                fs.skip(1)
            } else {
                fs
            }),
        }
    }
}

/// Appending one piece adds one to the float count exactly when the piece
/// is a float or double.
proof fn lemma_float_count_snoc(ps: Seq<GPiece>, p: GPiece)
    ensures
        float_count(ps.push(p)) == float_count(ps) + (match p {
            GPiece::Text(_) => 0nat,
            GPiece::Float(_) => 1nat,
            GPiece::Double(_) => 1nat,
        }),
    decreases ps.len(),
{
    if ps.len() == 0 {
        assert(ps =~= Seq::<GPiece>::empty());
        assert(float_count(Seq::<GPiece>::empty()) == 0);
        assert(ps.push(p)[0] == p);
        assert(ps.push(p).skip(1) =~= Seq::<GPiece>::empty());
    } else {
        assert(ps.push(p)[0] == ps[0]);
        assert(ps.push(p).skip(1) =~= ps.skip(1).push(p));
        lemma_float_count_snoc(ps.skip(1), p);
    }
}

/// Appending one piece appends its text: the piece's own text for a text
/// piece, and the next unconsumed rendering for a float or double piece.
proof fn lemma_flat_snoc(ps: Seq<GPiece>, fs: Seq<Seq<char>>, p: GPiece)
    ensures
        flat_with(ps.push(p), fs) == flat_with(ps, fs) + (match p {
            GPiece::Text(t) => t,
            GPiece::Float(_) => if float_count(ps) < fs.len() {
                fs[float_count(ps) as int]
            } else {
                Seq::empty()
            },
            GPiece::Double(_) => if float_count(ps) < fs.len() {
                fs[float_count(ps) as int]
            } else {
                Seq::empty()
            },
        }),
    decreases ps.len(),
{
    if ps.len() == 0 {
        assert(ps =~= Seq::<GPiece>::empty());
        assert(float_count(Seq::<GPiece>::empty()) == 0);
        assert(flat_with(Seq::<GPiece>::empty(), fs) =~= Seq::<char>::empty());
        assert(flat_with(Seq::<GPiece>::empty(), if fs.len() > 0 {
            fs.skip(1)
        } else {
            fs
        }) =~= Seq::<char>::empty());
        assert(ps.push(p)[0] == p);
        assert(ps.push(p).skip(1) =~= Seq::<GPiece>::empty());
        assert(flat_with(ps.push(p), fs) =~= flat_with(ps, fs) + (match p {
            GPiece::Text(t) => t,
            GPiece::Float(_) => if float_count(ps) < fs.len() {
                fs[float_count(ps) as int]
            } else {
                Seq::empty()
            },
            GPiece::Double(_) => if float_count(ps) < fs.len() {
                fs[float_count(ps) as int]
            } else {
                Seq::empty()
            },
        }));
    } else {
        assert(ps.push(p)[0] == ps[0]);
        assert(ps.push(p).skip(1) =~= ps.skip(1).push(p));
        match ps[0] {
            GPiece::Text(_) => {
                lemma_flat_snoc(ps.skip(1), fs, p);
            },
            GPiece::Float(_) => {
                lemma_flat_snoc(ps.skip(1), if fs.len() > 0 {
                    fs.skip(1)
                } else {
                    fs
                }, p);
                if fs.len() > 0 {
                    assert(forall|i: int|
                        0 <= i < fs.skip(1).len() ==> fs.skip(1)[i] == fs[i + 1]);
                }
            },
            GPiece::Double(_) => {
                lemma_flat_snoc(ps.skip(1), if fs.len() > 0 {
                    fs.skip(1)
                } else {
                    fs
                }, p);
                if fs.len() > 0 {
                    assert(forall|i: int|
                        0 <= i < fs.skip(1).len() ==> fs.skip(1)[i] == fs[i + 1]);
                }
            },
        }
        assert(flat_with(ps.push(p), fs) =~= flat_with(ps, fs) + (match p {
            GPiece::Text(t) => t,
            GPiece::Float(_) => if float_count(ps) < fs.len() {
                fs[float_count(ps) as int]
            } else {
                Seq::empty()
            },
            GPiece::Double(_) => if float_count(ps) < fs.len() {
                fs[float_count(ps) as int]
            } else {
                Seq::empty()
            },
        }));
    }
}

/// Joins decoded output pieces into the final document text. Each float or
/// double piece consumes the next entry of `float_texts`, the renderings
/// the caller computed from the recorded bits; the result is `None` exactly
/// when the number of renderings differs from the number of float and
/// double pieces.
pub fn assemble_output(pieces: &Vec<OutPiece>, float_texts: &Vec<String>) -> (r: Option<String>)
    ensures
        r is Some <==> float_texts.deep_view().len() == float_count(pieces.deep_view()),
        r matches Some(s) ==> s@ == flat_with(pieces.deep_view(), float_texts.deep_view()),
{
    let ghost pd = pieces.deep_view();
    let ghost fd = float_texts.deep_view();
    let mut cnt: usize = 0;
    let mut i: usize = 0;
    while i < pieces.len()
        invariant
            i <= pd.len(),
            pd == pieces.deep_view(),
            cnt == float_count(pd.take(i as int)),
            cnt <= i,
        decreases pd.len() - i,
    {
        proof {
            assert(pd.take(i + 1 as int) =~= pd.take(i as int).push(pd[i as int]));
            lemma_float_count_snoc(pd.take(i as int), pd[i as int]);
        }
        match &pieces[i] {
            OutPiece::Text(_) => {},
            OutPiece::Float(_) => {
                cnt = cnt + 1;
            },
            OutPiece::Double(_) => {
                cnt = cnt + 1;
            },
        }
        i = i + 1;
    }
    proof {
        assert(pd.take(pd.len() as int) =~= pd);
    }
    if cnt != float_texts.len() {
        return None;
    }
    let mut out = String::new();
    let mut fi: usize = 0;
    let mut j: usize = 0;
    while j < pieces.len()
        invariant
            j <= pd.len(),
            fi <= j,
            pd == pieces.deep_view(),
            fd == float_texts.deep_view(),
            fd.len() == float_count(pd),
            fi == float_count(pd.take(j as int)),
            fi <= fd.len(),
            out@ == flat_with(pd.take(j as int), fd),
        decreases pd.len() - j,
    {
        proof {
            assert(pd.take(j + 1 as int) =~= pd.take(j as int).push(pd[j as int]));
            lemma_float_count_snoc(pd.take(j as int), pd[j as int]);
            lemma_flat_snoc(pd.take(j as int), fd, pd[j as int]);
            assert(pd =~= pd.take(j + 1 as int) + pd.skip(j + 1 as int));
            lemma_float_count_concat(pd.take(j + 1 as int), pd.skip(j + 1 as int));
        }
        match &pieces[j] {
            OutPiece::Text(s) => {
                out.append(s.as_str());
            },
            OutPiece::Float(_) => {
                out.append(float_texts[fi].as_str());
                fi = fi + 1;
            },
            OutPiece::Double(_) => {
                out.append(float_texts[fi].as_str());
                fi = fi + 1;
            },
        }
        j = j + 1;
    }
    proof {
        assert(pd.take(pd.len() as int) =~= pd);
    }
    Some(out)
}

/// Output is append-only through one attribute step: whatever text stood
/// in the output before stands unchanged at its place after, whether the
/// step succeeded or failed. In particular an unknown attribute type tag
/// raises its error without disturbing what prior siblings emitted.
pub proof fn lemma_attr_keeps_output(d: Seq<u8>, st: DecView, token: u8)
    ensures
        st.pieces.is_prefix_of(spec_attr(d, st, token).st.pieces),
{
    reveal(spec_attr);
    match spec_read_interned(d, st.pos, st.table) {
        GInterned::Fail(e, p2) => {
            assert(st.pieces =~= spec_attr(d, st, token).st.pieces.subrange(
                0,
                st.pieces.len() as int,
            ));
        },
        GInterned::Got(name, p2, tbl2) => {
            let pieces1 = st.pieces.push(GPiece::Text(" "@ + name + "=\""@));
            match spec_attr_value(d, p2, tbl2, token & 0xF0) {
                GAttrVal::Fail(e, p3) => {
                    assert(st.pieces =~= pieces1.subrange(0, st.pieces.len() as int));
                },
                GAttrVal::Got(piece, p3, tbl3) => {
                    assert(st.pieces =~= pieces1.push(piece).push(GPiece::Text("\""@)).subrange(
                        0,
                        st.pieces.len() as int,
                    ));
                },
            }
        },
    }
}

/// Output is append-only through the attribute lookahead loop.
pub proof fn lemma_attr_loop_keeps_output(d: Seq<u8>, st: DecView)
    requires
        0 <= st.pos <= d.len(),
    ensures
        st.pieces.is_prefix_of(spec_attr_loop(d, st).st.pieces),
    decreases d.len() - st.pos,
{
    if st.pos >= d.len() {
        assert(st.pieces =~= st.pieces.subrange(0, st.pieces.len() as int));
    } else {
        let tok = d[st.pos];
        if tok & 0x0F == ATTRIBUTE {
            let st_in = DecView { pos: st.pos + 1, ..st };
            let r = spec_attr(d, st_in, tok);
            lemma_attr_keeps_output(d, st_in, tok);
            if r.err is Some {
            } else if st.pos < r.st.pos && r.st.pos <= d.len() {
                lemma_attr_loop_keeps_output(d, r.st);
                lemma_prefix_trans(st.pieces, r.st.pieces, spec_attr_loop(d, r.st).st.pieces);
            }
        } else {
            assert(st.pieces =~= st.pieces.subrange(0, st.pieces.len() as int));
        }
    }
}

/// Output is append-only through one token step, error or not.
pub proof fn lemma_token_keeps_output(d: Seq<u8>, st: DecView)
    requires
        0 <= st.pos <= d.len(),
    ensures
        st.pieces.is_prefix_of(spec_token(d, st).st.pieces),
{
    reveal(spec_token);
    reveal(spec_wrapped_text);
    assert(st.pieces =~= st.pieces.subrange(0, st.pieces.len() as int));
    assert forall|x: GPiece| st.pieces.is_prefix_of(#[trigger] st.pieces.push(x)) by {
        assert(st.pieces =~= st.pieces.push(x).subrange(0, st.pieces.len() as int));
    }
    if st.pos < d.len() {
        let token = d[st.pos];
        let command = token & 0x0F;
        let st0 = DecView { pos: st.pos + 1, ..st };
        if command == START_TAG {
            match spec_read_interned(d, st0.pos, st0.table) {
                GInterned::Fail(e, p2) => {},
                GInterned::Got(name, p2, tbl2) => {
                    if 0 <= p2 <= d.len() {
                        let seen2 = st0.seen_restrictions_user || name == "restrictions_user"@;
                        let ro2 = if name == "restrictions"@ && seen2 {
                            p2 as u64
                        } else {
                            st0.restriction_node_offset
                        };
                        let st1 = DecView {
                            pos: p2,
                            table: tbl2,
                            pieces: st0.pieces.push(GPiece::Text("<"@ + name)),
                            seen_restrictions_user: seen2,
                            restriction_node_offset: ro2,
                            ..st0
                        };
                        lemma_attr_loop_keeps_output(d, st1);
                        lemma_prefix_push(st.pieces, GPiece::Text("<"@ + name));
                        lemma_prefix_trans(st.pieces, st1.pieces, spec_attr_loop(d, st1).st.pieces);
                        let r = spec_attr_loop(d, st1);
                        if r.err is None {
                            lemma_prefix_push(r.st.pieces, GPiece::Text(">"@));
                            lemma_prefix_trans(
                                st.pieces,
                                r.st.pieces,
                                r.st.pieces.push(GPiece::Text(">"@)),
                            );
                        }
                    }
                },
            }
        }
    }
}

/// A sequence is a prefix of itself extended by one element.
proof fn lemma_prefix_push(s: Seq<GPiece>, x: GPiece)
    ensures
        s.is_prefix_of(s.push(x)),
{
    assert(s =~= s.push(x).subrange(0, s.len() as int));
}

/// Being a prefix is transitive.
proof fn lemma_prefix_trans(a: Seq<GPiece>, b: Seq<GPiece>, c: Seq<GPiece>)
    requires
        a.is_prefix_of(b),
        b.is_prefix_of(c),
    ensures
        a.is_prefix_of(c),
{
    assert(a =~= c.subrange(0, a.len() as int));
}

/// The tolerant decode preserves everything already emitted: the output
/// the run starts from is a prefix of the output it ends with, whether it
/// ends at end-of-stream, at an end-document token, or on a recorded
/// warning.
pub proof fn lemma_run_keeps_output(d: Seq<u8>, st: DecView)
    requires
        0 <= st.pos <= d.len(),
    ensures
        st.pieces.is_prefix_of(spec_run(d, st).st.pieces),
    decreases d.len() - st.pos,
{
    assert(st.pieces =~= st.pieces.subrange(0, st.pieces.len() as int));
    if st.pos < d.len() {
        let r = spec_token(d, st);
        lemma_token_keeps_output(d, st);
        if r.err is None && !r.stop && st.pos < r.st.pos && r.st.pos <= d.len() {
            lemma_run_keeps_output(d, r.st);
            lemma_prefix_trans(st.pieces, r.st.pieces, spec_run(d, r.st).st.pieces);
        }
    }
}

/// The float count of two joined piece sequences is the sum of theirs.
proof fn lemma_float_count_concat(a: Seq<GPiece>, b: Seq<GPiece>)
    ensures
        float_count(a + b) == float_count(a) + float_count(b),
    decreases a.len(),
{
    if a.len() == 0 {
        assert(a + b =~= b);
    } else {
        assert((a + b)[0] == a[0]);
        assert((a + b).skip(1) =~= a.skip(1) + b);
        lemma_float_count_concat(a.skip(1), b);
    }
}

/// Binary XML deserializer: converts one in-memory ABX stream to XML
/// output pieces, recording policy byte ranges and the restriction
/// insertion offset along the way. Single-use: one decode per instance.
pub struct BinaryXmlDeserializer {
    input: FastDataInput,
    pieces: Vec<OutPiece>,
    collect_policies: bool,
    policies: Vec<Policy>,
    restriction_node_offset: u64,
    already_read_restrictions_user: bool,
    warnings: Vec<AbxError>,
}

impl BinaryXmlDeserializer {
    /// The underlying byte stream.
    pub closed spec fn data(&self) -> Seq<u8> {
        self.input.data_spec()
    }

    /// The decoder state.
    pub closed spec fn st(&self) -> DecView {
        DecView {
            pos: self.input.pos_spec(),
            table: self.input.table_spec(),
            pieces: self.pieces.deep_view(),
            policies: self.policies.deep_view(),
            restriction_node_offset: self.restriction_node_offset,
            seen_restrictions_user: self.already_read_restrictions_user,
            collect: self.collect_policies,
        }
    }

    /// The warnings recorded by the tolerant top-level loop.
    pub closed spec fn warnings_spec(&self) -> Seq<GAbxError> {
        self.warnings.deep_view()
    }

    /// The cursor is within the stream, whose length fits the 32-bit
    /// offsets of the policy records.
    pub closed spec fn wf(&self) -> bool {
        self.input.wf() && self.input.data_spec().len() <= u32::MAX && self.st().pos >= 1
    }

    /// A new deserializer over `data`. The first four bytes must equal the
    /// ABX signature: a short stream is a read error and a wrong signature
    /// is a magic-header mismatch, both before any token is processed.
    pub fn new(data: Vec<u8>, collect_policies: bool) -> (r: Result<Self, AbxError>)
        requires
            data@.len() <= u32::MAX,
        ensures
            match r {
                Ok(de) => de.wf() && de.data() == data@ && data@.len() >= 4 && data@.subrange(0, 4)
                    =~= magic_seq() && de.st() =~= (DecView {
                    pos: 4,
                    table: Seq::empty(),
                    pieces: Seq::empty(),
                    policies: Seq::empty(),
                    restriction_node_offset: 0,
                    seen_restrictions_user: false,
                    collect: collect_policies,
                }) && de.warnings_spec().len() == 0,
                Err(e) => (data@.len() < 4 && e@ == GAbxError::ReadError("magic header"@)) || (
                data@.len() >= 4 && data@.subrange(0, 4) !~= magic_seq() && e@
                    == GAbxError::InvalidMagicHeader {
                    expected: magic_seq(),
                    actual: data@.subrange(0, 4),
                }),
            },
    {
        if data.len() < 4 {
            return Err(AbxError::ReadError("magic header".to_owned()));
        }
        let m0 = data[0];
        let m1 = data[1];
        let m2 = data[2];
        let m3 = data[3];
        let expected = PROTOCOL_MAGIC_VERSION_0;
        if !(m0 == expected[0] && m1 == expected[1] && m2 == expected[2] && m3 == expected[3]) {
            proof {
                assert(data@.subrange(0, 4)[0] == m0);
                assert(data@.subrange(0, 4)[1] == m1);
                assert(data@.subrange(0, 4)[2] == m2);
                assert(data@.subrange(0, 4)[3] == m3);
                assert([m0, m1, m2, m3]@ =~= data@.subrange(0, 4));
            }
            return Err(
                AbxError::InvalidMagicHeader { expected, actual: [m0, m1, m2, m3] },
            );
        }
        proof {
            assert(data@.subrange(0, 4) =~= magic_seq());
        }
        let mut input = FastDataInput::new(data);
        let res = input.seek(4);
        match res {
            Ok(_) => {},
            Err(e) => {
                return Err(e);
            },
        }
        Ok(
            BinaryXmlDeserializer {
                input,
                pieces: Vec::new(),
                collect_policies,
                policies: Vec::new(),
                restriction_node_offset: 0,
                already_read_restrictions_user: false,
                warnings: Vec::new(),
            },
        )
    }

    /// Decodes one attribute, entered with the cursor just past the
    /// attribute's token byte, as `spec_attr` prescribes.
    #[verifier::rlimit(100)]
    fn process_attribute(&mut self, token: u8) -> (r: Result<(), AbxError>)
        requires
            old(self).wf(),
        ensures
            final(self).wf(),
            final(self).data() == old(self).data(),
            final(self).warnings_spec() == old(self).warnings_spec(),
            final(self).st().pos >= old(self).st().pos,
            ({
                let sr = spec_attr(old(self).data(), old(self).st(), token);
                final(self).st() =~= sr.st && (match r {
                    Ok(u) => sr.err is None && !sr.stop && final(self).st().pos >= old(
                        self,
                    ).st().pos + 2,
                    Err(e) => sr.err == Some(e@),
                })
            }),
    {
        proof {
            reveal(spec_attr);
            reveal(spec_attr_value);
        }
        let start_pos = match self.input.tell() {
            Ok(p) => p,
            Err(e) => {
                return Err(e);
            },
        };
        let start_offset = (start_pos as u32) - 1;
        let name = match self.input.read_interned_utf() {
            Ok(s) => s,
            Err(e) => {
                return Err(e);
            },
        };
        let mut head = String::from_str(" ");
        head.append(name.as_str());
        head.append("=\"");
        self.pieces.push(OutPiece::Text(head));
        proof {
            assert(self.pieces.deep_view() =~= old(self).st().pieces.push(
                GPiece::Text(" "@ + name@ + "=\""@),
            ));
        }
        let type_info = token & 0xF0;
        if type_info == TYPE_STRING {
            let value = match self.input.read_utf() {
                Ok(v) => v,
                Err(e) => {
                    return Err(e);
                },
            };
            let esc = encode_xml_entities(value.as_str());
            self.push_text_piece(esc);
        } else if type_info == TYPE_STRING_INTERNED {
            let value = match self.input.read_interned_utf() {
                Ok(v) => v,
                Err(e) => {
                    return Err(e);
                },
            };
            let esc = encode_xml_entities(value.as_str());
            self.push_text_piece(esc);
        } else if type_info == TYPE_INT {
            let value = match self.input.read_int() {
                Ok(v) => v,
                Err(e) => {
                    return Err(e);
                },
            };
            let mut t = String::new();
            push_dec_i64(&mut t, value as i64);
            self.push_text_piece(t);
        } else if type_info == TYPE_INT_HEX {
            let value = match self.input.read_int() {
                Ok(v) => v,
                Err(e) => {
                    return Err(e);
                },
            };
            let bits: u32 = #[verifier::truncate] (value as u32);
            proof {
                assert(bits as int == if value >= 0 {
                    value as int
                } else {
                    value + 0x1_0000_0000
                }) by (bit_vector)
                    requires
                        bits == value as u32,
                ;
            }
            let mut t = String::from_str("0x");
            push_hex_u64(&mut t, bits as u64);
            self.push_text_piece(t);
        } else if type_info == TYPE_LONG {
            let value = match self.input.read_long() {
                Ok(v) => v,
                Err(e) => {
                    return Err(e);
                },
            };
            let mut t = String::new();
            push_dec_i64(&mut t, value);
            self.push_text_piece(t);
        } else if type_info == TYPE_LONG_HEX {
            let value = match self.input.read_long() {
                Ok(v) => v,
                Err(e) => {
                    return Err(e);
                },
            };
            let bits: u64 = #[verifier::truncate] (value as u64);
            proof {
                assert(bits as int == if value >= 0 {
                    value as int
                } else {
                    value + 0x1_0000_0000_0000_0000
                }) by (bit_vector)
                    requires
                        bits == value as u64,
                ;
            }
            let mut t = String::from_str("0x");
            push_hex_u64(&mut t, bits);
            self.push_text_piece(t);
        } else if type_info == TYPE_FLOAT {
            let value = match self.input.read_int() {
                Ok(v) => v,
                Err(e) => {
                    return Err(e);
                },
            };
            let bits: u32 = #[verifier::truncate] (value as u32);
            proof {
                assert(bits as int == if value >= 0 {
                    value as int
                } else {
                    value + 0x1_0000_0000
                }) by (bit_vector)
                    requires
                        bits == value as u32,
                ;
            }
            self.pieces.push(OutPiece::Float(bits));
            proof {
                assert(self.pieces.deep_view() =~= self.st().pieces);
            }
        } else if type_info == TYPE_DOUBLE {
            let value = match self.input.read_long() {
                Ok(v) => v,
                Err(e) => {
                    return Err(e);
                },
            };
            let bits: u64 = #[verifier::truncate] (value as u64);
            proof {
                assert(bits as int == if value >= 0 {
                    value as int
                } else {
                    value + 0x1_0000_0000_0000_0000
                }) by (bit_vector)
                    requires
                        bits == value as u64,
                ;
            }
            self.pieces.push(OutPiece::Double(bits));
        } else if type_info == TYPE_BOOLEAN_TRUE {
            self.push_text_piece(String::from_str("true"));
        } else if type_info == TYPE_BOOLEAN_FALSE {
            self.push_text_piece(String::from_str("false"));
        } else if type_info == TYPE_BYTES_HEX {
            let length = match self.input.read_short() {
                Ok(v) => v,
                Err(e) => {
                    return Err(e);
                },
            };
            let bytes = match self.input.read_bytes(length) {
                Ok(v) => v,
                Err(e) => {
                    return Err(e);
                },
            };
            let h = hex_encode_upper(&bytes);
            self.push_text_piece(h);
        } else if type_info == TYPE_BYTES_BASE64 {
            let length = match self.input.read_short() {
                Ok(v) => v,
                Err(e) => {
                    return Err(e);
                },
            };
            let bytes = match self.input.read_bytes(length) {
                Ok(v) => v,
                Err(e) => {
                    return Err(e);
                },
            };
            let enc = base64_encode(&bytes);
            self.push_text_piece(enc);
        } else {
            return Err(AbxError::UnknownAttributeType(type_info));
        }
        let end_pos = match self.input.tell() {
            Ok(p) => p,
            Err(e) => {
                return Err(e);
            },
        };
        let end_offset = end_pos as u32;
        if self.collect_policies {
            self.policies.push(Policy { name, start_offset, end_offset });
            proof {
                assert(self.policies.deep_view() =~= old(self).st().policies.push(
                    GPolicy {
                        name: name@,
                        start_offset: start_offset,
                        end_offset: end_offset,
                    },
                ));
            }
        }
        self.push_text_piece(String::from_str("\""));
        Ok(())
    }

    /// Reads one plain string and emits it verbatim between the two fixed
    /// delimiters, as `spec_wrapped_text` prescribes; a no-op unless the
    /// type nibble is the plain-string type.
    fn emit_wrapped(&mut self, type_info: u8, before: &str, after: &str) -> (r: Result<
        bool,
        AbxError,
    >)
        requires
            old(self).wf(),
        ensures
            final(self).wf(),
            final(self).data() == old(self).data(),
            final(self).warnings_spec() == old(self).warnings_spec(),
            final(self).st().pos >= old(self).st().pos,
            ({
                let sr = spec_wrapped_text(
                    old(self).data(),
                    old(self).st(),
                    type_info,
                    before@,
                    after@,
                );
                final(self).st() =~= sr.st && (match r {
                    Ok(cont) => sr.err is None && cont == true && !sr.stop,
                    Err(e) => sr.err == Some(e@),
                })
            }),
    {
        proof {
            reveal(spec_wrapped_text);
        }
        if type_info == TYPE_STRING {
            let text = match self.input.read_utf() {
                Ok(s) => s,
                Err(e) => {
                    return Err(e);
                },
            };
            let mut t = String::from_str(before);
            t.append(text.as_str());
            t.append(after);
            self.push_text_piece(t);
        }
        Ok(true)
    }

    /// Reads one token byte and dispatches on its command nibble, as
    /// `spec_token` prescribes. `Ok(true)` means decoding continues;
    /// `Ok(false)` is the normal end at an end-document token.
    #[verifier::rlimit(100)]
    fn process_token(&mut self) -> (r: Result<bool, AbxError>)
        requires
            old(self).wf(),
        ensures
            final(self).wf(),
            final(self).data() == old(self).data(),
            final(self).warnings_spec() == old(self).warnings_spec(),
            final(self).st().pos >= old(self).st().pos,
            ({
                let sr = spec_token(old(self).data(), old(self).st());
                final(self).st() =~= sr.st && (match r {
                    Ok(cont) => sr.err is None && cont == !sr.stop && (cont
                        ==> final(self).st().pos > old(self).st().pos),
                    Err(e) => sr.err == Some(e@),
                })
            }),
    {
        proof {
            reveal(spec_token);
        }
        let token = match self.input.read_byte() {
            Ok(b) => b,
            Err(e) => {
                return Err(e);
            },
        };
        let command = token & 0x0F;
        let type_info = token & 0xF0;
        if command == START_DOCUMENT {
            Ok(true)
        } else if command == END_DOCUMENT {
            Ok(false)
        } else if command == START_TAG {
            let tag_name = match self.input.read_interned_utf() {
                Ok(s) => s,
                Err(e) => {
                    return Err(e);
                },
            };
            let ru = String::from_str("restrictions_user");
            if tag_name.eq(&ru) {
                self.already_read_restrictions_user = true;
            }
            let rs = String::from_str("restrictions");
            if tag_name.eq(&rs) && self.already_read_restrictions_user {
                let p = match self.input.tell() {
                    Ok(p) => p,
                    Err(e) => {
                        return Err(e);
                    },
                };
                self.restriction_node_offset = p;
            }
            let mut headp = String::from_str("<");
            headp.append(tag_name.as_str());
            self.push_text_piece(headp);
            let ghost st1 = self.st();
            proof {
                let d = old(self).data();
                let stp = old(self).st();
                match spec_read_interned(d, stp.pos + 1, stp.table) {
                    GInterned::Got(nm, p2, tbl2) => {
                        let seen2 = stp.seen_restrictions_user || nm == "restrictions_user"@;
                        let ro2 = if nm == "restrictions"@ && seen2 {
                            p2 as u64
                        } else {
                            stp.restriction_node_offset
                        };
                        assert(nm == tag_name@);
                        assert(st1 =~= (DecView {
                            pos: p2,
                            table: tbl2,
                            pieces: stp.pieces.push(GPiece::Text("<"@ + nm)),
                            policies: stp.policies,
                            restriction_node_offset: ro2,
                            seen_restrictions_user: seen2,
                            collect: stp.collect,
                        }));
                    },
                    GInterned::Fail(e, p2) => {
                        assert(false);
                    },
                }
            }
            let mut attrs_done: bool = false;
            while !attrs_done
                invariant
                    self.wf(),
                    self.data() == old(self).data(),
                    self.warnings_spec() == old(self).warnings_spec(),
                    st1.pos <= self.st().pos <= self.data().len(),
                    st1.pos >= old(self).st().pos + 3,
                    !attrs_done ==> spec_attr_loop(self.data(), self.st()) == spec_attr_loop(
                        self.data(),
                        st1,
                    ),
                    attrs_done ==> ({
                        let ra = spec_attr_loop(self.data(), st1);
                        ra.err is None && self.st() =~= ra.st
                    }),
                    ({
                        let sr = spec_token(old(self).data(), old(self).st());
                        let ra = spec_attr_loop(old(self).data(), st1);
                        &&& (ra.err is Some ==> sr == ra)
                        &&& (ra.err is None ==> sr == (StepRes {
                            st: DecView {
                                pieces: ra.st.pieces.push(GPiece::Text(">"@)),
                                ..ra.st
                            },
                            err: None,
                            stop: false,
                        }))
                    }),
                decreases self.data().len() - self.st().pos, (if attrs_done {
                    0int
                } else {
                    1int
                }),
            {
                let ghost st_iter = self.st();
                if self.input.is_eof() {
                    proof {
                        assert(spec_attr_loop(self.data(), st_iter) == (StepRes {
                            st: st_iter,
                            err: None,
                            stop: false,
                        }));
                    }
                    attrs_done = true;
                } else {
                    let pos = match self.input.tell() {
                        Ok(p) => p,
                        Err(e) => {
                            return Err(e);
                        },
                    };
                    let next_token = match self.input.read_byte() {
                        Ok(b) => b,
                        Err(e) => {
                            return Err(e);
                        },
                    };
                    if next_token & 0x0F == ATTRIBUTE {
                        let ghost st_in = self.st();
                        proof {
                            assert(st_in =~= (DecView { pos: st_iter.pos + 1, ..st_iter }));
                        }
                        match self.process_attribute(next_token) {
                            Ok(_) => {
                                proof {
                                    let d = self.data();
                                    let ra = spec_attr(d, st_in, next_token);
                                    assert(self.st() =~= ra.st);
                                    assert(spec_attr_loop(d, st_iter) == spec_attr_loop(d, ra.st));
                                }
                            },
                            Err(e) => {
                                proof {
                                    let d = self.data();
                                    let ra = spec_attr(d, st_in, next_token);
                                    assert(self.st() =~= ra.st);
                                    assert(spec_attr_loop(d, st_iter) == ra);
                                    assert(spec_attr_loop(d, st1) == ra);
                                }
                                return Err(e);
                            },
                        }
                    } else {
                        match self.input.seek(pos) {
                            Ok(_) => {},
                            Err(e) => {
                                return Err(e);
                            },
                        }
                        proof {
                            assert(self.st() =~= st_iter);
                            assert(spec_attr_loop(self.data(), st_iter) == (StepRes {
                                st: st_iter,
                                err: None,
                                stop: false,
                            }));
                        }
                        attrs_done = true;
                    }
                }
            }
            self.push_text_piece(String::from_str(">"));
            proof {
                let d = old(self).data();
                let sr = spec_token(d, old(self).st());
                let ra = spec_attr_loop(d, st1);
                assert(sr.st =~= (DecView {
                    pieces: ra.st.pieces.push(GPiece::Text(">"@)),
                    ..ra.st
                }));
                assert(self.st() =~= sr.st);
                assert(self.st().pos > old(self).st().pos);
            }
            Ok(true)
        } else if command == END_TAG {
            let tag_name = match self.input.read_interned_utf() {
                Ok(s) => s,
                Err(e) => {
                    return Err(e);
                },
            };
            let mut t = String::from_str("</");
            t.append(tag_name.as_str());
            t.append(">");
            self.push_text_piece(t);
            Ok(true)
        } else if command == TEXT {
            if type_info == TYPE_STRING {
                let text = match self.input.read_utf() {
                    Ok(s) => s,
                    Err(e) => {
                        return Err(e);
                    },
                };
                if !text.as_str().is_empty() {
                    self.push_text_piece(encode_xml_entities(text.as_str()));
                }
            }
            Ok(true)
        } else if command == CDSECT {
            self.emit_wrapped(type_info, "<![CDATA[", "]]>")
        } else if command == COMMENT {
            self.emit_wrapped(type_info, "<!--", "-->")
        } else if command == PROCESSING_INSTRUCTION {
            self.emit_wrapped(type_info, "<?", "?>")
        } else if command == DOCDECL {
            self.emit_wrapped(type_info, "<!DOCTYPE ", ">")
        } else if command == ENTITY_REF {
            self.emit_wrapped(type_info, "&", ";")
        } else if command == IGNORABLE_WHITESPACE {
            self.emit_wrapped(type_info, "", "")
        } else {
            Ok(true)
        }
    }

    /// Decodes the stream: writes the XML declaration once, then reads and
    /// dispatches tokens until end-of-stream or an end-document token. A
    /// token that fails to parse stops decoding early, is recorded as a
    /// warning, and leaves the output already emitted in place; the call
    /// itself still succeeds.
    pub fn deserialize(&mut self) -> (r: Result<(), AbxError>)
        requires
            old(self).wf(),
        ensures
            final(self).wf(),
            final(self).data() == old(self).data(),
            r matches Ok(u),
            ({
                let st0 = DecView {
                    pieces: old(self).st().pieces.push(GPiece::Text(xml_declaration())),
                    ..old(self).st()
                };
                let rr = spec_run(old(self).data(), st0);
                final(self).st() =~= rr.st && (match rr.warning {
                    Some(e) => final(self).warnings_spec() =~= old(self).warnings_spec().push(e),
                    None => final(self).warnings_spec() == old(self).warnings_spec(),
                })
            }),
    {
        self.push_text_piece(String::from_str("<?xml version=\"1.0\" encoding=\"UTF-8\"?>"));
        let ghost st0 = self.st();
        let mut done: bool = false;
        while !done
            invariant
                self.wf(),
                self.data() == old(self).data(),
                !done ==> self.warnings_spec() == old(self).warnings_spec() && spec_run(
                    self.data(),
                    self.st(),
                ) == spec_run(self.data(), st0),
                done ==> ({
                    let rr = spec_run(self.data(), st0);
                    self.st() =~= rr.st && (match rr.warning {
                        Some(e) => self.warnings_spec() =~= old(self).warnings_spec().push(e),
                        None => self.warnings_spec() == old(self).warnings_spec(),
                    })
                }),
            decreases self.data().len() - self.st().pos, (if done {
                0int
            } else {
                1int
            }),
        {
            let ghost st_iter = self.st();
            if self.input.is_eof() {
                proof {
                    assert(spec_run(self.data(), st_iter) == (RunRes { st: st_iter, warning: None }));
                }
                done = true;
            } else {
                match self.process_token() {
                    Ok(true) => {
                        proof {
                            let d = self.data();
                            let tr = spec_token(d, st_iter);
                            assert(spec_run(d, st_iter) == spec_run(d, tr.st));
                        }
                    },
                    Ok(false) => {
                        proof {
                            let d = self.data();
                            let tr = spec_token(d, st_iter);
                            assert(spec_run(d, st_iter) == (RunRes { st: tr.st, warning: None }));
                        }
                        done = true;
                    },
                    Err(e) => {
                        let ghost ge = e@;
                        proof {
                            let d = self.data();
                            let tr = spec_token(d, st_iter);
                            assert(spec_run(d, st_iter) == (RunRes { st: tr.st, warning: Some(ge) }));
                        }
                        self.warnings.push(e);
                        proof {
                            assert(self.warnings.deep_view() =~= old(self).warnings_spec().push(
                                ge,
                            ));
                        }
                        done = true;
                    },
                }
            }
        }
        Ok(())
    }

    /// The policy records collected during the decode, in decode order.
    pub fn get_policies(&self) -> (r: &Vec<Policy>)
        ensures
            r.deep_view() == self.st().policies,
    {
        &self.policies
    }

    /// The recorded restriction insertion offset: the stream position just
    /// past the name of the last `restrictions` start tag that opened
    /// after a `restrictions_user` tag was seen.
    pub fn get_restriction_node_offset(&self) -> (r: &u64)
        ensures
            *r == self.st().restriction_node_offset,
    {
        &self.restriction_node_offset
    }

    /// The decoded output pieces, in order.
    pub fn output_pieces(&self) -> (r: &Vec<OutPiece>)
        ensures
            r.deep_view() == self.st().pieces,
    {
        &self.pieces
    }

    /// The warnings the tolerant top-level loop recorded.
    pub fn warnings(&self) -> (r: &Vec<AbxError>)
        ensures
            r.deep_view() == self.warnings_spec(),
    {
        &self.warnings
    }

    /// Appends one text piece to the output.
    fn push_text_piece(&mut self, s: String)
        ensures
            final(self).data() == old(self).data(),
            final(self).warnings_spec() == old(self).warnings_spec(),
            final(self).st() =~= (DecView {
                pieces: old(self).st().pieces.push(GPiece::Text(s@)),
                ..old(self).st()
            }),
            final(self).wf() == old(self).wf(),
    {
        self.pieces.push(OutPiece::Text(s));
        proof {
            assert(self.pieces.deep_view() =~= old(self).pieces.deep_view().push(
                GPiece::Text(s@),
            ));
        }
    }
}


} // verus!
