//! The general laws the traversal and the codec obey.

use vstd::prelude::*;

use crate::boxtype::{spec_leaf, spec_valid, BoxType};
use crate::bytes::be_u64_at;
use crate::engine::{
    events_of, lemma_step_parsed, lemma_step_stopped, lemma_traverse_empty, spec_box_end,
    spec_corrected, traverse_spec, TRes,
};
use crate::events::{lemma_stack_from_append, stack_from, Event};
use crate::boxtype::lemma_code_of_type_of;
use crate::bytes::{be_u32_at, lemma_be_u32_roundtrip, lemma_be_u64_roundtrip};
use crate::header::{
    header_bytes, lemma_parse_header_props, parse_header, BoxHeader, HeaderStep,
};
use crate::strip::{lemma_strip_cont_append, strip_cont, strip_name, strip_payload, strip_step, StripSt};
use crate::tree::{content_of, serial, serial_seq, spec_attach, SpecBox, SpecData};

verus! {

/// A successful traversal is perfectly bracketed: from any stack of open
/// boxes, its events push and pop in LIFO order, every `Start` matched by
/// an `End` carrying the same name, and leave the stack as they found it.
pub proof fn lemma_traversal_balanced(data: Seq<u8>, pos: int, end: int, s: Seq<BoxType>)
    ensures
        traverse_spec(data, pos, end) matches TRes::Done(evs) ==> stack_from(s, evs) == Some(s),
    decreases (if pos < end { end - pos } else { 0 }), (if pos < end { 1int } else { 0 }),
{
    if pos >= end {
        lemma_traverse_empty(data, pos, end);
    } else {
        lemma_step_stopped(data, pos, end);
        match parse_header(data, pos) {
            HeaderStep::TooShort => {},
            HeaderStep::BadLargesize => {},
            HeaderStep::Parsed { header, hlen } => {
                lemma_parse_header_props(data, pos);
                if spec_valid(header.name) {
                    lemma_step_parsed(data, pos, end, header, hlen);
                    let content_start = pos + hlen;
                    let box_end = spec_box_end(pos, hlen, header.size, end);
                    let next = if box_end > end {
                        end
                    } else {
                        box_end
                    };
                    let start_ev = Event::Start {
                        header,
                        corrected: spec_corrected(pos, header.size, end),
                    };
                    let end_ev = Event::End { name: header.name };
                    let t_next = traverse_spec(data, next, end);
                    lemma_traversal_balanced(data, next, end, s);
                    if spec_leaf(header.name) {
                        match t_next {
                            TRes::Done(rest) => {
                                let data_ev = Event::Data {
                                    bytes: data.subrange(content_start, box_end),
                                };
                                let box_evs = seq![start_ev, data_ev, end_ev];
                                lemma_stack_from_append(s, box_evs, rest);
                                let pushed = s.push(header.name);
                                assert(box_evs.drop_first() =~= seq![data_ev, end_ev]);
                                assert(seq![data_ev, end_ev].drop_first() =~= seq![end_ev]);
                                assert(seq![end_ev].drop_first() =~= Seq::<Event>::empty());
                                assert(pushed.drop_last() =~= s);
                                assert(stack_from(s, box_evs) == stack_from(
                                    pushed,
                                    seq![data_ev, end_ev],
                                ));
                                assert(stack_from(pushed, seq![data_ev, end_ev]) == stack_from(
                                    pushed,
                                    seq![end_ev],
                                ));
                                assert(stack_from(s, Seq::<Event>::empty()) == Some(s));
                                assert(stack_from(pushed, seq![end_ev]) == Some(s));
                                assert(stack_from(s, box_evs) == Some(s));
                                assert(events_of(traverse_spec(data, pos, end)) =~= box_evs + rest);
                            },
                            TRes::Fail(..) => {},
                        }
                    } else {
                        let t_child = traverse_spec(data, content_start, box_end);
                        lemma_traversal_balanced(data, content_start, box_end, s.push(header.name));
                        match t_child {
                            TRes::Done(child_evs) => {
                                match t_next {
                                    TRes::Done(rest) => {
                                        let head = seq![start_ev];
                                        lemma_stack_from_append(
                                            s,
                                            head + child_evs + seq![end_ev],
                                            rest,
                                        );
                                        lemma_stack_from_append(s, head, child_evs + seq![end_ev]);
                                        let pushed = s.push(header.name);
                                        assert(head.drop_first() =~= Seq::<Event>::empty());
                                        assert(stack_from(pushed, Seq::<Event>::empty()) == Some(
                                            pushed,
                                        ));
                                        assert(stack_from(s, head) == Some(pushed));
                                        lemma_stack_from_append(pushed, child_evs, seq![end_ev]);
                                        assert(seq![end_ev].drop_first()
                                            =~= Seq::<Event>::empty());
                                        assert(pushed.drop_last() =~= s);
                                        assert(stack_from(s, Seq::<Event>::empty()) == Some(s));
                                        assert(stack_from(pushed, seq![end_ev]) == Some(s));
                                        assert(stack_from(s, head + (child_evs + seq![end_ev]))
                                            == Some(s));
                                        assert(head + child_evs + seq![end_ev] =~= head + (
                                        child_evs + seq![end_ev]));
                                        assert(events_of(traverse_spec(data, pos, end)) =~= (head
                                            + child_evs + seq![end_ev]) + rest);
                                    },
                                    TRes::Fail(..) => {},
                                }
                            },
                            TRes::Fail(..) => {},
                        }
                    }
                }
            },
        }
    }
}

/// A box whose header declares size `0` runs to the end of its container:
/// it is the final box of the level, and for a leaf its payload is
/// everything from the end of the header to the container's end.
pub proof fn lemma_size_zero_runs_to_end(data: Seq<u8>, pos: int, end: int)
    requires
        pos < end,
        parse_header(data, pos) matches HeaderStep::Parsed { header, hlen } && header.size == 0
            && spec_valid(header.name) && spec_leaf(header.name) && pos + hlen <= end,
    ensures
        traverse_spec(data, pos, end) matches TRes::Done(evs) && (parse_header(data, pos) matches
        HeaderStep::Parsed { header, hlen } && evs == seq![
            Event::Start { header, corrected: None },
            Event::Data { bytes: data.subrange(pos + hlen, end) },
            Event::End { name: header.name },
        ]),
{
    let step = parse_header(data, pos);
    match step {
        HeaderStep::Parsed { header, hlen } => {
            lemma_step_parsed(data, pos, end, header, hlen);
            lemma_traverse_empty(data, end, end);
            let box_evs = seq![
                Event::Start { header, corrected: None },
                Event::Data { bytes: data.subrange(pos + hlen, end) },
                Event::End { name: header.name },
            ];
            assert(box_evs + Seq::<Event>::empty() =~= box_evs);
        },
        _ => {},
    }
}

/// A 16-byte header whose largesize field is exactly `16` is legal and
/// carries no payload beyond its own header, while a largesize in `1..=15`
/// is rejected as invalid.
pub proof fn lemma_largesize_bounds(data: Seq<u8>, pos: int)
    requires
        0 <= pos,
        pos + 16 <= data.len(),
        crate::bytes::be_u32_at(data, pos) == 1,
    ensures
        be_u64_at(data, pos + 8) == 16 ==> (parse_header(data, pos) matches HeaderStep::Parsed {
            header,
            hlen,
        } && header.size == 16 && header.longsize && hlen == 16),
        1 <= be_u64_at(data, pos + 8) <= 15 ==> parse_header(data, pos) is BadLargesize,
{
    reveal(parse_header);
}

/// A box whose declared size overflows its container is clamped: its end
/// becomes the container's end and the clamped total size is announced.
pub proof fn lemma_overflow_clamped(pos: int, hlen: int, size: u64, end: int)
    requires
        0 < size,
        pos + size > end,
        pos + hlen <= end,
    ensures
        spec_box_end(pos, hlen, size, end) == end,
        spec_corrected(pos, size, end) == Some((end - pos) as u64),
{
}

/// A header naming an invalid type ends its level quietly: the traversal of
/// that level stops with the events it has, and an enclosing level carries
/// on after it.
pub proof fn lemma_invalid_name_skips_level(data: Seq<u8>, pos: int, end: int)
    requires
        pos < end,
        parse_header(data, pos) matches HeaderStep::Parsed { header, .. } && !spec_valid(
            header.name,
        ),
    ensures
        traverse_spec(data, pos, end) == TRes::Done(Seq::<Event>::empty()),
{
    lemma_step_stopped(data, pos, end);
}

/// Whether `data[pos..end]` is a clean row of boxes: every header parses to
/// a valid type, every declared size covers its own header and stays inside
/// the enclosing range, no content-to-end sentinel is used, and every
/// container's content is itself a clean row that fills it exactly.
pub open spec fn exact_range(data: Seq<u8>, pos: int, end: int) -> bool
    decreases (if pos < end { end - pos } else { 0 }), (if pos < end { 1int } else { 0 }),
{
    if pos >= end {
        true
    } else {
        match parse_header(data, pos) {
            HeaderStep::Parsed { header, hlen } => {
                proof {
                    lemma_parse_header_props(data, pos);
                }
                let bend = if pos + header.size > end {
                    end
                } else {
                    pos + header.size
                };
                &&& spec_valid(header.name)
                &&& header.size != 0
                &&& header.size >= hlen
                &&& pos + header.size <= end
                &&& (spec_leaf(header.name) || exact_range(data, pos + hlen, bend))
                &&& exact_range(data, bend, end)
            },
            _ => false,
        }
    }
}

/// The box tree spelled in `data[pos..end]`: each leaf keeps its payload
/// bytes and its length encoding, each container holds its children.  This
/// is what a buffering traversal that captures everything builds.
pub open spec fn capture_tree(data: Seq<u8>, pos: int, end: int) -> Seq<SpecBox>
    decreases (if pos < end { end - pos } else { 0 }), (if pos < end { 1int } else { 0 }),
{
    if pos >= end {
        Seq::empty()
    } else {
        match parse_header(data, pos) {
            HeaderStep::Parsed { header, hlen } => {
                proof {
                    lemma_parse_header_props(data, pos);
                }
                let capped = if pos + header.size > end {
                    end
                } else {
                    pos + header.size
                };
                let bend = if capped < pos + hlen {
                    pos + hlen
                } else {
                    capped
                };
                let b = SpecBox {
                    name: header.name,
                    data: if spec_leaf(header.name) {
                        SpecData::Raw(data.subrange(pos + hlen, bend))
                    } else {
                        SpecData::Children(capture_tree(data, pos + hlen, bend))
                    },
                    force_longsize: header.longsize,
                };
                seq![b] + capture_tree(data, bend, end)
            },
            _ => Seq::empty(),
        }
    }
}

/// A header that declares its box's true extent re-serializes to its own
/// bytes: the codec's write is a left inverse of its read.
pub proof fn lemma_header_bytes_exact(data: Seq<u8>, pos: int)
    requires
        0 <= pos,
        parse_header(data, pos) matches HeaderStep::Parsed { header, hlen } && header.size != 0
            && header.size >= hlen,
    ensures
        parse_header(data, pos) matches HeaderStep::Parsed { header, hlen } ==> pos + hlen
            <= data.len() && header_bytes(
            header.name,
            (header.size - hlen) as nat,
            header.longsize,
        ) == data.subrange(pos, pos + hlen),
{
    reveal(parse_header);
    lemma_parse_header_props(data, pos);
    match parse_header(data, pos) {
        HeaderStep::Parsed { header, hlen } => {
            let code = be_u32_at(data, pos + 4);
            lemma_code_of_type_of(code);
            lemma_be_u32_roundtrip(data, pos);
            lemma_be_u32_roundtrip(data, pos + 4);
            let content = (header.size - hlen) as nat;
            if header.longsize {
                lemma_be_u64_roundtrip(data, pos + 8);
                assert(be_u32_at(data, pos) == 1);
                assert(crate::bytes::be_u64_at(data, pos + 8) == header.size);
                assert(header_bytes(header.name, content, true) =~= data.subrange(pos, pos + 4)
                    + data.subrange(pos + 4, pos + 8) + data.subrange(pos + 8, pos + 16));
                assert(data.subrange(pos, pos + 4) + data.subrange(pos + 4, pos + 8)
                    + data.subrange(pos + 8, pos + 16) =~= data.subrange(pos, pos + 16));
            } else {
                assert(header.size <= u32::MAX);
                assert(content + 8 == header.size);
                assert((content + 8) as u32 == be_u32_at(data, pos));
                assert(header_bytes(header.name, content, false) =~= data.subrange(pos, pos + 4)
                    + data.subrange(pos + 4, pos + 8));
                assert(data.subrange(pos, pos + 4) + data.subrange(pos + 4, pos + 8)
                    =~= data.subrange(pos, pos + 8));
            }
        },
        _ => {},
    }
}

/// Serialization is a left inverse of parsing: the tree parsed from a clean
/// row of boxes serializes back to the very bytes it was parsed from,
/// length encodings included.
pub proof fn lemma_serialize_left_inverse(data: Seq<u8>, pos: int, end: int)
    requires
        0 <= pos <= end <= data.len(),
        exact_range(data, pos, end),
    ensures
        serial_seq(capture_tree(data, pos, end)) == data.subrange(pos, end),
    decreases (if pos < end { end - pos } else { 0 }), (if pos < end { 1int } else { 0 }),
{
    if pos >= end {
        assert(data.subrange(pos, end) =~= Seq::<u8>::empty());
        assert(serial_seq(capture_tree(data, pos, end)) == Seq::<u8>::empty());
    } else {
        match parse_header(data, pos) {
            HeaderStep::Parsed { header, hlen } => {
                lemma_parse_header_props(data, pos);
                lemma_header_bytes_exact(data, pos);
                let bend = pos + header.size;
                let cs = pos + hlen;
                let b = SpecBox {
                    name: header.name,
                    data: if spec_leaf(header.name) {
                        SpecData::Raw(data.subrange(cs, bend))
                    } else {
                        SpecData::Children(capture_tree(data, cs, bend))
                    },
                    force_longsize: header.longsize,
                };
                assert(capture_tree(data, pos, end) == seq![b] + capture_tree(data, bend, end));
                if spec_leaf(header.name) {
                    assert(content_of(b.data).len() == header.size - hlen);
                } else {
                    lemma_serialize_left_inverse(data, cs, bend);
                    assert(content_of(b.data) == data.subrange(cs, bend));
                }
                assert(serial(b) =~= data.subrange(pos, cs) + data.subrange(cs, bend));
                assert(data.subrange(pos, cs) + data.subrange(cs, bend) =~= data.subrange(
                    pos,
                    bend,
                ));
                lemma_serialize_left_inverse(data, bend, end);
                let whole = seq![b] + capture_tree(data, bend, end);
                assert(whole[0] == b);
                assert(whole.drop_first() =~= capture_tree(data, bend, end));
                assert(serial_seq(whole) == serial(b) + serial_seq(capture_tree(data, bend, end)));
                assert(data.subrange(pos, bend) + data.subrange(bend, end) =~= data.subrange(
                    pos,
                    end,
                ));
            },
            _ => {},
        }
    }
}

/// Attaches a row of children to a payload, one at a time.
pub open spec fn attach_all(d: SpecData, boxes: Seq<SpecBox>) -> SpecData
    decreases boxes.len(),
{
    if boxes.len() == 0 {
        d
    } else {
        attach_all(spec_attach(d, boxes.first()), boxes.drop_first())
    }
}

/// Attaching a row starting with `c` attaches `c` first.
pub proof fn lemma_attach_all_cons(d: SpecData, c: SpecBox, b: Seq<SpecBox>)
    ensures
        attach_all(d, seq![c] + b) == attach_all(spec_attach(d, c), b),
{
    assert((seq![c] + b).first() == c);
    assert((seq![c] + b).drop_first() =~= b);
}

/// The tree a stripping rebuild builds out of `data[pos..end]`: leaves hold
/// their stored payload — blanked, repaired, or verbatim — and containers
/// gather the children attached to them.
pub open spec fn strip_tree(data: Seq<u8>, pos: int, end: int, ignore: Seq<BoxType>) -> Seq<
    SpecBox,
>
    decreases (if pos < end { end - pos } else { 0 }), (if pos < end { 1int } else { 0 }),
{
    if pos >= end {
        Seq::empty()
    } else {
        match parse_header(data, pos) {
            HeaderStep::Parsed { header, hlen } => {
                proof {
                    lemma_parse_header_props(data, pos);
                }
                let capped = if pos + header.size > end {
                    end
                } else {
                    pos + header.size
                };
                let bend = if capped < pos + hlen {
                    pos + hlen
                } else {
                    capped
                };
                let b = if spec_leaf(header.name) {
                    SpecBox {
                        name: strip_name(header.name, ignore),
                        data: SpecData::Raw(
                            strip_payload(header.name, data.subrange(pos + hlen, bend), ignore),
                        ),
                        force_longsize: header.longsize,
                    }
                } else {
                    SpecBox {
                        name: header.name,
                        data: attach_all(
                            SpecData::Empty,
                            strip_tree(data, pos + hlen, bend, ignore),
                        ),
                        force_longsize: header.longsize,
                    }
                };
                seq![b] + strip_tree(data, bend, end, ignore)
            },
            _ => Seq::empty(),
        }
    }
}

/// What closing a completed box does to a stripping rebuild: the box is
/// written out at the top level, attached to the box opened last otherwise.
pub open spec fn strip_close(st: StripSt, b: SpecBox) -> StripSt {
    if st.stack.len() == 0 {
        StripSt { stack: st.stack, out: st.out + serial(b) }
    } else {
        let top = st.stack.last();
        StripSt {
            stack: st.stack.update(
                st.stack.len() - 1,
                SpecBox {
                    name: top.name,
                    data: spec_attach(top.data, b),
                    force_longsize: top.force_longsize,
                },
            ),
            out: st.out,
        }
    }
}

/// Stepping a stripping rebuild through one leaf box builds the stored leaf
/// and closes it.
#[verifier::rlimit(100)]
#[verifier::spinoff_prover]
pub proof fn lemma_strip_leaf_steps(
    st: StripSt,
    ignore: Seq<BoxType>,
    header: BoxHeader,
    corrected: Option<u64>,
    payload: Seq<u8>,
)
    ensures
        ({
            let start_ev = Event::Start { header, corrected };
            let data_ev = Event::Data { bytes: payload };
            let end_ev = Event::End { name: header.name };
            let b1 = SpecBox {
                name: strip_name(header.name, ignore),
                data: SpecData::Raw(strip_payload(header.name, payload, ignore)),
                force_longsize: header.longsize,
            };
            strip_cont(st, seq![start_ev, data_ev, end_ev], ignore) == strip_close(st, b1)
        }),
{
    let start_ev = Event::Start { header, corrected };
    let data_ev = Event::Data { bytes: payload };
    let end_ev = Event::End { name: header.name };
    let fresh = SpecBox {
        name: header.name,
        data: SpecData::Empty,
        force_longsize: header.longsize,
    };
    let b1 = SpecBox {
        name: strip_name(header.name, ignore),
        data: SpecData::Raw(strip_payload(header.name, payload, ignore)),
        force_longsize: header.longsize,
    };
    let box_evs = seq![start_ev, data_ev, end_ev];
    assert(box_evs.drop_last() =~= seq![start_ev, data_ev]);
    assert(seq![start_ev, data_ev].drop_last() =~= seq![start_ev]);
    assert(seq![start_ev].drop_last() =~= Seq::<Event>::empty());
    let g1 = strip_step(st, start_ev, ignore);
    let g2 = strip_step(g1, data_ev, ignore);
    assert(strip_cont(st, Seq::<Event>::empty(), ignore) == st);
    assert(strip_cont(st, seq![start_ev], ignore) == g1);
    assert(strip_cont(st, seq![start_ev, data_ev], ignore) == g2);
    assert(strip_cont(st, box_evs, ignore) == strip_step(g2, end_ev, ignore));
    assert(g1.stack == st.stack.push(fresh));
    assert(g1.stack.last() == fresh);
    assert(g2.stack =~= st.stack.push(b1));
    assert(g2.stack.last() == b1);
    let g3 = strip_step(g2, end_ev, ignore);
    if st.stack.len() == 0 {
        assert(g2.stack.drop_last() =~= st.stack);
        assert(g3 == strip_close(st, b1));
    } else {
        let top = st.stack.last();
        assert(g2.stack[g2.stack.len() - 2] == top);
        assert(g2.stack.drop_last() =~= st.stack);
        assert(g3.stack =~= strip_close(st, b1).stack);
        assert(g3 == strip_close(st, b1));
    }
}

/// Stepping a stripping rebuild through one container box opens it, lets
/// the children build it, and closes it.
#[verifier::rlimit(100)]
#[verifier::spinoff_prover]
pub proof fn lemma_strip_container_steps(
    st: StripSt,
    ignore: Seq<BoxType>,
    header: BoxHeader,
    corrected: Option<u64>,
    child_evs: Seq<Event>,
    b1: SpecBox,
)
    requires
        b1.name == header.name,
        b1.force_longsize == header.longsize,
        strip_cont(
            StripSt {
                stack: st.stack.push(
                    SpecBox {
                        name: header.name,
                        data: SpecData::Empty,
                        force_longsize: header.longsize,
                    },
                ),
                out: st.out,
            },
            child_evs,
            ignore,
        ) == (StripSt { stack: st.stack.push(b1), out: st.out }),
    ensures
        ({
            let start_ev = Event::Start { header, corrected };
            let end_ev = Event::End { name: header.name };
            strip_cont(st, seq![start_ev] + child_evs + seq![end_ev], ignore) == strip_close(
                st,
                b1,
            )
        }),
{
    let start_ev = Event::Start { header, corrected };
    let end_ev = Event::End { name: header.name };
    let fresh = SpecBox {
        name: header.name,
        data: SpecData::Empty,
        force_longsize: header.longsize,
    };
    let g1 = strip_step(st, start_ev, ignore);
    assert(seq![start_ev].drop_last() =~= Seq::<Event>::empty());
    assert(strip_cont(st, Seq::<Event>::empty(), ignore) == st);
    assert(strip_cont(st, seq![start_ev], ignore) == g1);
    assert(g1 == StripSt { stack: st.stack.push(fresh), out: st.out });
    lemma_strip_cont_append(st, seq![start_ev], child_evs, ignore);
    let g2 = StripSt { stack: st.stack.push(b1), out: st.out };
    assert(strip_cont(st, seq![start_ev] + child_evs, ignore) == g2);
    lemma_strip_cont_append(st, seq![start_ev] + child_evs, seq![end_ev], ignore);
    assert(seq![end_ev].drop_last() =~= Seq::<Event>::empty());
    let g3 = strip_step(g2, end_ev, ignore);
    assert(strip_cont(g2, Seq::<Event>::empty(), ignore) == g2);
    assert(strip_cont(g2, seq![end_ev], ignore) == g3);
    assert(g2.stack.last() == b1);
    if st.stack.len() == 0 {
        assert(g2.stack.drop_last() =~= st.stack);
        assert(g3 == strip_close(st, b1));
    } else {
        let top = st.stack.last();
        assert(g2.stack[g2.stack.len() - 2] == top);
        assert(g2.stack.drop_last() =~= st.stack);
        assert(g3.stack =~= strip_close(st, b1).stack);
        assert(g3 == strip_close(st, b1));
    }
}

/// Over a clean row of boxes the traversal succeeds, and a stripping
/// rebuild run from any state behaves structurally: at the top level it
/// writes each box of [`strip_tree`] out in order, and below the top level
/// it attaches those boxes to the box opened last.
#[verifier::rlimit(100)]
#[verifier::spinoff_prover]
pub proof fn lemma_strip_run_exact(
    data: Seq<u8>,
    pos: int,
    end: int,
    st: StripSt,
    ignore: Seq<BoxType>,
)
    requires
        0 <= pos <= end <= data.len(),
        exact_range(data, pos, end),
    ensures
        traverse_spec(data, pos, end) matches TRes::Done(evs) && strip_cont(st, evs, ignore) == (
        if st.stack.len() == 0 {
            StripSt {
                stack: st.stack,
                out: st.out + serial_seq(strip_tree(data, pos, end, ignore)),
            }
        } else {
            let top = st.stack.last();
            StripSt {
                stack: st.stack.update(
                    st.stack.len() - 1,
                    SpecBox {
                        name: top.name,
                        data: attach_all(top.data, strip_tree(data, pos, end, ignore)),
                        force_longsize: top.force_longsize,
                    },
                ),
                out: st.out,
            }
        }),
    decreases (if pos < end { end - pos } else { 0 }), (if pos < end { 1int } else { 0 }),
{
    if pos >= end {
        lemma_traverse_empty(data, pos, end);
        assert(serial_seq(Seq::<SpecBox>::empty()) == Seq::<u8>::empty());
        assert(st.out + Seq::<u8>::empty() =~= st.out);
        if st.stack.len() > 0 {
            let top = st.stack.last();
            assert(SpecBox {
                name: top.name,
                data: attach_all(top.data, Seq::<SpecBox>::empty()),
                force_longsize: top.force_longsize,
            } == top);
            assert(st.stack.update(st.stack.len() - 1, top) =~= st.stack);
        }
    } else {
        match parse_header(data, pos) {
            HeaderStep::Parsed { header, hlen } => {
                lemma_parse_header_props(data, pos);
                lemma_step_parsed(data, pos, end, header, hlen);
                let cs = pos + hlen;
                let bend = pos + header.size;
                assert(spec_box_end(pos, hlen, header.size, end) == bend);
                assert(spec_corrected(pos, header.size, end) is None);
                let start_ev = Event::Start { header, corrected: None };
                let end_ev = Event::End { name: header.name };
                let rest_tree = strip_tree(data, bend, end, ignore);
                let b1 = if spec_leaf(header.name) {
                    SpecBox {
                        name: strip_name(header.name, ignore),
                        data: SpecData::Raw(
                            strip_payload(header.name, data.subrange(cs, bend), ignore),
                        ),
                        force_longsize: header.longsize,
                    }
                } else {
                    SpecBox {
                        name: header.name,
                        data: attach_all(SpecData::Empty, strip_tree(data, cs, bend, ignore)),
                        force_longsize: header.longsize,
                    }
                };
                assert(strip_tree(data, pos, end, ignore) == seq![b1] + rest_tree);
                assert((seq![b1] + rest_tree)[0] == b1);
                assert((seq![b1] + rest_tree).drop_first() =~= rest_tree);

                let box_evs: Seq<Event>;
                if spec_leaf(header.name) {
                    let data_ev = Event::Data { bytes: data.subrange(cs, bend) };
                    box_evs = seq![start_ev, data_ev, end_ev];
                    lemma_strip_leaf_steps(st, ignore, header, None, data.subrange(cs, bend));
                } else {
                    let fresh = SpecBox {
                        name: header.name,
                        data: SpecData::Empty,
                        force_longsize: header.longsize,
                    };
                    let st_in = StripSt { stack: st.stack.push(fresh), out: st.out };
                    lemma_strip_run_exact(data, cs, bend, st_in, ignore);
                    let child_evs = events_of(traverse_spec(data, cs, bend));
                    assert(strip_cont(st_in, child_evs, ignore) == (StripSt {
                        stack: st.stack.push(b1),
                        out: st.out,
                    })) by {
                        assert(st_in.stack.last() == fresh);
                        assert(st_in.stack.update(st_in.stack.len() - 1, b1) =~= st.stack.push(
                            b1,
                        ));
                    };
                    lemma_strip_container_steps(st, ignore, header, None, child_evs, b1);
                    box_evs = seq![start_ev] + child_evs + seq![end_ev];
                }
                assert(strip_cont(st, box_evs, ignore) == strip_close(st, b1));
                let st_box = strip_close(st, b1);

                lemma_strip_run_exact(data, bend, end, st_box, ignore);
                let rest_evs = events_of(traverse_spec(data, bend, end));
                let evs = events_of(traverse_spec(data, pos, end));
                assert(evs =~= box_evs + rest_evs);
                lemma_strip_cont_append(st, box_evs, rest_evs, ignore);
                let st_fin = strip_cont(st, evs, ignore);
                assert(st_fin == strip_cont(st_box, rest_evs, ignore));
                if st.stack.len() == 0 {
                    assert(st_box.stack.len() == 0);
                    assert(st_fin.out =~= st.out + (serial(b1) + serial_seq(rest_tree)));
                    assert(serial_seq(seq![b1] + rest_tree) == serial(b1) + serial_seq(rest_tree));
                    assert(st_fin.stack =~= st.stack);
                    assert(st_fin == StripSt {
                        stack: st.stack,
                        out: st.out + serial_seq(strip_tree(data, pos, end, ignore)),
                    });
                } else {
                    let top = st.stack.last();
                    let plen = st.stack.len() - 1;
                    let top1 = SpecBox {
                        name: top.name,
                        data: spec_attach(top.data, b1),
                        force_longsize: top.force_longsize,
                    };
                    assert(st_box.stack.len() == st.stack.len());
                    assert(st_box.stack.last() == top1);
                    lemma_attach_all_cons(top.data, b1, rest_tree);
                    assert(st_fin.stack =~= st.stack.update(
                        plen,
                        SpecBox {
                            name: top.name,
                            data: attach_all(top.data, seq![b1] + rest_tree),
                            force_longsize: top.force_longsize,
                        },
                    )) by {
                        assert(st_box.stack.update(plen, SpecBox {
                            name: top1.name,
                            data: attach_all(top1.data, rest_tree),
                            force_longsize: top1.force_longsize,
                        }) =~= st.stack.update(plen, SpecBox {
                            name: top.name,
                            data: attach_all(top.data, seq![b1] + rest_tree),
                            force_longsize: top.force_longsize,
                        }));
                    };
                    assert(st_fin.out == st.out);
                }
            },
            _ => {},
        }
    }
}

/// Attaching children to a row extends the row.
pub proof fn lemma_attach_all_children(s: Seq<SpecBox>, boxes: Seq<SpecBox>)
    ensures
        attach_all(SpecData::Children(s), boxes) == SpecData::Children(s + boxes),
    decreases boxes.len(),
{
    if boxes.len() == 0 {
        assert(s + boxes =~= s);
    } else {
        assert(spec_attach(SpecData::Children(s), boxes.first()) == SpecData::Children(
            s.push(boxes.first()),
        ));
        lemma_attach_all_children(s.push(boxes.first()), boxes.drop_first());
        assert(s.push(boxes.first()) + boxes.drop_first() =~= s + boxes);
    }
}

/// Attaching a non-empty row of children to an empty payload makes exactly
/// that row of children.
pub proof fn lemma_attach_all_empty(boxes: Seq<SpecBox>)
    requires
        boxes.len() > 0,
    ensures
        attach_all(SpecData::Empty, boxes) == SpecData::Children(boxes),
{
    assert(spec_attach(SpecData::Empty, boxes.first()) == SpecData::Children(
        seq![boxes.first()],
    ));
    lemma_attach_all_children(seq![boxes.first()], boxes.drop_first());
    assert(seq![boxes.first()] + boxes.drop_first() =~= boxes);
}

/// Whether every sample table in `data[pos..end]` already stores the entry
/// count its length implies: the stripping repair leaves such a payload
/// unchanged.
pub open spec fn tables_consistent(data: Seq<u8>, pos: int, end: int) -> bool
    decreases (if pos < end { end - pos } else { 0 }), (if pos < end { 1int } else { 0 }),
{
    if pos >= end {
        true
    } else {
        match parse_header(data, pos) {
            HeaderStep::Parsed { header, hlen } => {
                proof {
                    lemma_parse_header_props(data, pos);
                }
                let capped = if pos + header.size > end {
                    end
                } else {
                    pos + header.size
                };
                let bend = if capped < pos + hlen {
                    pos + hlen
                } else {
                    capped
                };
                &&& (spec_leaf(header.name) ==> strip_payload(
                    header.name,
                    data.subrange(pos + hlen, bend),
                    Seq::empty(),
                ) == data.subrange(pos + hlen, bend))
                &&& (!spec_leaf(header.name) ==> tables_consistent(data, pos + hlen, bend))
                &&& tables_consistent(data, bend, end)
            },
            _ => true,
        }
    }
}

/// Whether no box in `data[pos..end]`, at any depth, has a type in `kinds`.
pub open spec fn avoids(data: Seq<u8>, pos: int, end: int, kinds: Seq<BoxType>) -> bool
    decreases (if pos < end { end - pos } else { 0 }), (if pos < end { 1int } else { 0 }),
{
    if pos >= end {
        true
    } else {
        match parse_header(data, pos) {
            HeaderStep::Parsed { header, hlen } => {
                proof {
                    lemma_parse_header_props(data, pos);
                }
                let capped = if pos + header.size > end {
                    end
                } else {
                    pos + header.size
                };
                let bend = if capped < pos + hlen {
                    pos + hlen
                } else {
                    capped
                };
                &&& !kinds.contains(header.name)
                &&& (!spec_leaf(header.name) ==> avoids(data, pos + hlen, bend, kinds))
                &&& avoids(data, bend, end, kinds)
            },
            _ => true,
        }
    }
}

/// Every range avoids an empty set of types.
pub proof fn lemma_avoids_empty(data: Seq<u8>, pos: int, end: int)
    ensures
        avoids(data, pos, end, Seq::empty()),
    decreases (if pos < end { end - pos } else { 0 }), (if pos < end { 1int } else { 0 }),
{
    if pos < end {
        match parse_header(data, pos) {
            HeaderStep::Parsed { header, hlen } => {
                lemma_parse_header_props(data, pos);
                let capped = if pos + header.size > end {
                    end
                } else {
                    pos + header.size
                };
                let bend = if capped < pos + hlen {
                    pos + hlen
                } else {
                    capped
                };
                lemma_avoids_empty(data, pos + hlen, bend);
                lemma_avoids_empty(data, bend, end);
            },
            _ => {},
        }
    }
}

/// Over a clean range whose sample tables are consistent and which holds no
/// box of a blanked type, the tree a stripping rebuild builds serializes
/// back to the very bytes it was built from: stripping touches nothing but
/// the boxes it was told to blank and the tables it repairs.
pub proof fn lemma_strip_tree_serial(data: Seq<u8>, pos: int, end: int, ignore: Seq<BoxType>)
    requires
        0 <= pos <= end <= data.len(),
        exact_range(data, pos, end),
        tables_consistent(data, pos, end),
        avoids(data, pos, end, ignore),
    ensures
        serial_seq(strip_tree(data, pos, end, ignore)) == data.subrange(pos, end),
    decreases (if pos < end { end - pos } else { 0 }), (if pos < end { 1int } else { 0 }),
{
    let none = ignore;
    if pos >= end {
        assert(data.subrange(pos, end) =~= Seq::<u8>::empty());
        assert(serial_seq(strip_tree(data, pos, end, none)) == Seq::<u8>::empty());
    } else {
        match parse_header(data, pos) {
            HeaderStep::Parsed { header, hlen } => {
                lemma_parse_header_props(data, pos);
                lemma_header_bytes_exact(data, pos);
                let bend = pos + header.size;
                let cs = pos + hlen;
                assert(!none.contains(header.name));
                assert(strip_name(header.name, none) == header.name);
                let b = if spec_leaf(header.name) {
                    SpecBox {
                        name: header.name,
                        data: SpecData::Raw(strip_payload(header.name, data.subrange(cs, bend), none)),
                        force_longsize: header.longsize,
                    }
                } else {
                    SpecBox {
                        name: header.name,
                        data: attach_all(SpecData::Empty, strip_tree(data, cs, bend, none)),
                        force_longsize: header.longsize,
                    }
                };
                assert(strip_tree(data, pos, end, none) == seq![b] + strip_tree(data, bend, end, none));
                if spec_leaf(header.name) {
                    assert(strip_payload(header.name, data.subrange(cs, bend), none)
                        == data.subrange(cs, bend)) by {
                        reveal(strip_payload);
                        assert(strip_payload(header.name, data.subrange(cs, bend), Seq::empty())
                            == data.subrange(cs, bend));
                    };
                    assert(content_of(b.data) == data.subrange(cs, bend));
                } else {
                    lemma_strip_tree_serial(data, cs, bend, ignore);
                    let kids = strip_tree(data, cs, bend, none);
                    if kids.len() == 0 {
                        assert(serial_seq(kids) == Seq::<u8>::empty());
                        assert(content_of(b.data) =~= data.subrange(cs, bend));
                    } else {
                        lemma_attach_all_empty(kids);
                        assert(content_of(b.data) == serial_seq(kids));
                    }
                }
                assert(content_of(b.data).len() == header.size - hlen);
                assert(serial(b) =~= data.subrange(pos, cs) + data.subrange(cs, bend));
                assert(data.subrange(pos, cs) + data.subrange(cs, bend) =~= data.subrange(
                    pos,
                    bend,
                ));
                lemma_strip_tree_serial(data, bend, end, ignore);
                let whole = seq![b] + strip_tree(data, bend, end, none);
                assert(whole[0] == b);
                assert(whole.drop_first() =~= strip_tree(data, bend, end, none));
                assert(serial_seq(whole) == serial(b) + serial_seq(
                    strip_tree(data, bend, end, none),
                ));
                assert(data.subrange(pos, bend) + data.subrange(bend, end) =~= data.subrange(
                    pos,
                    end,
                ));
            },
            _ => {},
        }
    }
}

/// Stripping with an empty ignore list leaves a clean file with consistent
/// sample tables byte-identical: the rebuild is the identity transformation.
pub proof fn lemma_strip_empty_is_identity(data: Seq<u8>)
    requires
        exact_range(data, 0, data.len() as int),
        tables_consistent(data, 0, data.len() as int),
    ensures
        traverse_spec(data, 0, data.len() as int) matches TRes::Done(evs) && crate::strip::strip_fold(
            evs,
            Seq::empty(),
        ).out == data,
{
    let none = Seq::<BoxType>::empty();
    let st0 = StripSt { stack: Seq::empty(), out: Seq::empty() };
    lemma_strip_run_exact(data, 0, data.len() as int, st0, none);
    let evs = events_of(traverse_spec(data, 0, data.len() as int));
    crate::strip::lemma_strip_fold_is_cont(evs, none);
    lemma_avoids_empty(data, 0, data.len() as int);
    lemma_strip_tree_serial(data, 0, data.len() as int, none);
    assert(Seq::<u8>::empty() + serial_seq(strip_tree(data, 0, data.len() as int, none))
        =~= serial_seq(strip_tree(data, 0, data.len() as int, none)));
    assert(data.subrange(0, data.len() as int) =~= data);
}

/// Stripping never changes a clean file's length, whatever is blanked: an
/// ignored box is replaced by a same-sized run of zeros under the same-sized
/// header, and the sample-table repair of a consistent table is the
/// identity.
pub proof fn lemma_strip_preserves_length(data: Seq<u8>, pos: int, end: int, ignore: Seq<BoxType>)
    requires
        0 <= pos <= end <= data.len(),
        exact_range(data, pos, end),
        tables_consistent(data, pos, end),
    ensures
        serial_seq(strip_tree(data, pos, end, ignore)).len() == end - pos,
    decreases (if pos < end { end - pos } else { 0 }), (if pos < end { 1int } else { 0 }),
{
    if pos >= end {
        assert(serial_seq(strip_tree(data, pos, end, ignore)) == Seq::<u8>::empty());
    } else {
        match parse_header(data, pos) {
            HeaderStep::Parsed { header, hlen } => {
                lemma_parse_header_props(data, pos);
                lemma_header_bytes_exact(data, pos);
                let bend = pos + header.size;
                let cs = pos + hlen;
                let b = strip_tree(data, pos, end, ignore)[0];
                assert(strip_tree(data, pos, end, ignore) == seq![b] + strip_tree(
                    data,
                    bend,
                    end,
                    ignore,
                ));
                if spec_leaf(header.name) {
                    assert(strip_payload(header.name, data.subrange(cs, bend), ignore).len()
                        == bend - cs) by {
                        reveal(strip_payload);
                        if !ignore.contains(header.name) {
                            assert(strip_payload(header.name, data.subrange(cs, bend), Seq::empty())
                                == data.subrange(cs, bend));
                        }
                    };
                    assert(content_of(b.data).len() == header.size - hlen);
                } else {
                    lemma_strip_preserves_length(data, cs, bend, ignore);
                    let kids = strip_tree(data, cs, bend, ignore);
                    if kids.len() == 0 {
                        assert(content_of(b.data).len() == header.size - hlen);
                    } else {
                        lemma_attach_all_empty(kids);
                        assert(content_of(b.data).len() == header.size - hlen);
                    }
                }
                assert(header_bytes(
                    b.name,
                    content_of(b.data).len(),
                    b.force_longsize,
                ).len() == hlen) by {
                    assert(header_bytes(
                        header.name,
                        (header.size - hlen) as nat,
                        header.longsize,
                    ).len() == hlen);
                };
                assert(serial(b).len() == header.size);
                lemma_strip_preserves_length(data, bend, end, ignore);
                let whole = seq![b] + strip_tree(data, bend, end, ignore);
                assert(whole[0] == b);
                assert(whole.drop_first() =~= strip_tree(data, bend, end, ignore));
                assert(serial_seq(whole) == serial(b) + serial_seq(
                    strip_tree(data, bend, end, ignore),
                ));
            },
            _ => {},
        }
    }
}

} // verus!
