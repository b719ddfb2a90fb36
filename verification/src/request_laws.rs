//! Splitting input into commands is incremental: the commands of a prefix do
//! not change when more bytes arrive, and what is left over can be split on
//! its own once more bytes have come.
use vstd::prelude::*;

use crate::decimal::parse_i64_spec;
use crate::request::{
    all_utf8, commands_after, lf_index, spec_bulk_arg, spec_bulk_args, spec_commands, spec_frame,
    split_words, strip_cr, Commands, Frame, Piece, Pieces,
};
use crate::resp::line_end;

verus! {

/// The result of splitting, with every offset moved by `k`.
pub open spec fn shift_commands(r: Commands, k: int) -> Commands {
    match r {
        Commands::Done(cs, e) => Commands::Done(cs, e + k),
        Commands::Invalid => Commands::Invalid,
    }
}

pub open spec fn shift_frame(f: Frame, k: int) -> Frame {
    match f {
        Frame::Command(ts, e) => Frame::Command(ts, e + k),
        Frame::Blank(e) => Frame::Blank(e + k),
        Frame::Incomplete => Frame::Incomplete,
        Frame::Invalid => Frame::Invalid,
    }
}

pub open spec fn shift_piece(p: Piece, k: int) -> Piece {
    match p {
        Piece::Done(t, e) => Piece::Done(t, e + k),
        Piece::Incomplete => Piece::Incomplete,
        Piece::Invalid => Piece::Invalid,
    }
}

pub open spec fn shift_pieces(p: Pieces, k: int) -> Pieces {
    match p {
        Pieces::Done(ts, e) => Pieces::Done(ts, e + k),
        Pieces::Incomplete => Pieces::Incomplete,
        Pieces::Invalid => Pieces::Invalid,
    }
}

proof fn lemma_line_end_shift(pre: Seq<u8>, x: Seq<u8>, from: int)
    requires
        0 <= from,
    ensures
        line_end(pre + x, pre.len() + from) == pre.len() + line_end(x, from),
    decreases x.len() - from,
{
    if from < x.len() {
        assert((pre + x)[pre.len() + from] == x[from]);
        if x[from] != 13 {
            lemma_line_end_shift(pre, x, from + 1);
        }
    }
}

proof fn lemma_lf_index_shift(pre: Seq<u8>, x: Seq<u8>, from: int)
    requires
        0 <= from,
    ensures
        lf_index(pre + x, pre.len() + from) == pre.len() + lf_index(x, from),
    decreases x.len() - from,
{
    if from < x.len() {
        assert((pre + x)[pre.len() + from] == x[from]);
        if x[from] != 10 {
            lemma_lf_index_shift(pre, x, from + 1);
        }
    }
}

proof fn lemma_lf_index_bounds(data: Seq<u8>, from: int)
    requires
        0 <= from <= data.len(),
    ensures
        from <= lf_index(data, from) <= data.len(),
    decreases data.len() - from,
{
    if from < data.len() && data[from] != 10 {
        lemma_lf_index_bounds(data, from + 1);
    }
}

proof fn lemma_line_end_ext(data: Seq<u8>, more: Seq<u8>, from: int)
    requires
        0 <= from,
        line_end(data, from) < data.len(),
    ensures
        line_end(data + more, from) == line_end(data, from),
    decreases data.len() - from,
{
    assert((data + more)[from] == data[from]);
    if data[from] != 13 {
        lemma_line_end_ext(data, more, from + 1);
    }
}

proof fn lemma_lf_index_ext(data: Seq<u8>, more: Seq<u8>, from: int)
    requires
        0 <= from,
        lf_index(data, from) < data.len(),
    ensures
        lf_index(data + more, from) == lf_index(data, from),
    decreases data.len() - from,
{
    assert((data + more)[from] == data[from]);
    if data[from] != 10 {
        lemma_lf_index_ext(data, more, from + 1);
    }
}

proof fn lemma_bulk_arg_shift(pre: Seq<u8>, x: Seq<u8>, o: int)
    requires
        0 <= o,
    ensures
        spec_bulk_arg(pre + x, pre.len() + o) == shift_piece(spec_bulk_arg(x, o), pre.len() as int),
{
    let d = pre + x;
    let k = pre.len() as int;
    if o < x.len() {
        assert(d[k + o] == x[o]);
        lemma_line_end_shift(pre, x, o + 1);
        crate::resp::lemma_line_end(x, o + 1);
        let p = line_end(x, o + 1);
        if p + 1 < x.len() {
            assert(d[k + p + 1] == x[p + 1]);
            assert(d.subrange(k + o + 1, k + p) =~= x.subrange(o + 1, p));
            if let Some(n) = parse_i64_spec(x.subrange(o + 1, p)) {
                if n >= 0 && p + 2 + n + 2 <= x.len() {
                    assert(d[k + p + 2 + n] == x[p + 2 + n]);
                    assert(d[k + p + 3 + n] == x[p + 3 + n]);
                    assert(d.subrange(k + p + 2, k + p + 2 + n) =~= x.subrange(p + 2, p + 2 + n));
                }
            }
        }
    }
}

proof fn lemma_bulk_arg_ext(data: Seq<u8>, more: Seq<u8>, o: int)
    requires
        0 <= o,
        spec_bulk_arg(data, o) is Done || spec_bulk_arg(data, o) is Invalid,
    ensures
        spec_bulk_arg(data + more, o) == spec_bulk_arg(data, o),
{
    let d = data + more;
    assert(o < data.len());
    assert(d[o] == data[o]);
    if data[o] == 36 {
        crate::resp::lemma_line_end(data, o + 1);
        let p = line_end(data, o + 1);
        assert(p + 1 < data.len());
        lemma_line_end_ext(data, more, o + 1);
        assert(d[p + 1] == data[p + 1]);
        assert(d.subrange(o + 1, p) =~= data.subrange(o + 1, p));
        if let Some(n) = parse_i64_spec(data.subrange(o + 1, p)) {
            if n >= 0 && p + 2 + n + 2 <= data.len() {
                assert(d[p + 2 + n] == data[p + 2 + n]);
                assert(d[p + 3 + n] == data[p + 3 + n]);
                assert(d.subrange(p + 2, p + 2 + n) =~= data.subrange(p + 2, p + 2 + n));
            }
        }
    }
}

proof fn lemma_bulk_args_shift(pre: Seq<u8>, x: Seq<u8>, o: int, count: int)
    requires
        0 <= o,
    ensures
        spec_bulk_args(pre + x, pre.len() + o, count) == shift_pieces(
            spec_bulk_args(x, o, count),
            pre.len() as int,
        ),
    decreases count,
{
    if count > 0 {
        lemma_bulk_arg_shift(pre, x, o);
        lemma_bulk_arg_end(x, o);
        if let Piece::Done(t, e) = spec_bulk_arg(x, o) {
            lemma_bulk_args_shift(pre, x, e, count - 1);
        }
    }
}

proof fn lemma_bulk_arg_end(data: Seq<u8>, o: int)
    requires
        0 <= o,
    ensures
        spec_bulk_arg(data, o) matches Piece::Done(_, e) ==> o < e <= data.len(),
{
    if o < data.len() && data[o] == 36 {
        crate::resp::lemma_line_end(data, o + 1);
    }
}

proof fn lemma_bulk_args_ext(data: Seq<u8>, more: Seq<u8>, o: int, count: int)
    requires
        0 <= o,
        spec_bulk_args(data, o, count) is Done || spec_bulk_args(data, o, count) is Invalid,
    ensures
        spec_bulk_args(data + more, o, count) == spec_bulk_args(data, o, count),
    decreases count,
{
    if count > 0 {
        match spec_bulk_arg(data, o) {
            Piece::Done(t, e) => {
                lemma_bulk_arg_ext(data, more, o);
                lemma_bulk_arg_end(data, o);
                lemma_bulk_args_ext(data, more, e, count - 1);
            },
            Piece::Invalid => {
                lemma_bulk_arg_ext(data, more, o);
            },
            Piece::Incomplete => {},
        }
    }
}

proof fn lemma_frame_shift(pre: Seq<u8>, x: Seq<u8>, off: int)
    requires
        0 <= off < x.len(),
    ensures
        spec_frame(pre + x, pre.len() + off) == shift_frame(spec_frame(x, off), pre.len() as int),
{
    let d = pre + x;
    let k = pre.len() as int;
    assert(d[k + off] == x[off]);
    if x[off] == 42 {
        lemma_line_end_shift(pre, x, off + 1);
        crate::resp::lemma_line_end(x, off + 1);
        let p = line_end(x, off + 1);
        if p + 1 < x.len() {
            assert(d[k + p + 1] == x[p + 1]);
            assert(d.subrange(k + off + 1, k + p) =~= x.subrange(off + 1, p));
            if let Some(count) = parse_i64_spec(x.subrange(off + 1, p)) {
                crate::resp::lemma_line_end(x, off + 1);
                lemma_bulk_args_shift(pre, x, p + 2, count as int);
            }
        }
    } else {
        lemma_lf_index_shift(pre, x, off);
        lemma_lf_index_bounds(x, off);
        let nl = lf_index(x, off);
        if nl < x.len() {
            assert(d.subrange(k + off, k + nl) =~= x.subrange(off, nl));
        }
    }
}

proof fn lemma_frame_ext(data: Seq<u8>, more: Seq<u8>, off: int)
    requires
        0 <= off < data.len(),
        !(spec_frame(data, off) is Incomplete),
    ensures
        spec_frame(data + more, off) == spec_frame(data, off),
{
    let d = data + more;
    assert(d[off] == data[off]);
    if data[off] == 42 {
        crate::resp::lemma_line_end(data, off + 1);
        let p = line_end(data, off + 1);
        assert(p + 1 < data.len());
        lemma_line_end_ext(data, more, off + 1);
        assert(d[p + 1] == data[p + 1]);
        assert(d.subrange(off + 1, p) =~= data.subrange(off + 1, p));
        if data[p + 1] == 10 {
            if let Some(count) = parse_i64_spec(data.subrange(off + 1, p)) {
                if count > 0 {
                    lemma_bulk_args_ext(data, more, p + 2, count as int);
                }
            }
        }
    } else {
        lemma_lf_index_bounds(data, off);
        lemma_lf_index_ext(data, more, off);
        let nl = lf_index(data, off);
        assert(d.subrange(off, nl) =~= data.subrange(off, nl));
    }
}

/// Splitting `pre + x` from inside `x` is splitting `x`, with offsets moved
/// by the length of `pre`.
pub proof fn lemma_commands_shift(pre: Seq<u8>, x: Seq<u8>, off: int)
    requires
        0 <= off,
    ensures
        spec_commands(pre + x, pre.len() + off) == shift_commands(
            spec_commands(x, off),
            pre.len() as int,
        ),
    decreases x.len() - off,
{
    let k = pre.len() as int;
    if off < x.len() {
        lemma_frame_shift(pre, x, off);
        match spec_frame(x, off) {
            Frame::Command(ts, e) => {
                if e > off && e <= x.len() {
                    lemma_commands_shift(pre, x, e);
                }
            },
            Frame::Blank(e) => {
                if e > off && e <= x.len() {
                    lemma_commands_shift(pre, x, e);
                }
            },
            _ => {},
        }
    }
}

/// The commands found in `data` from `off` stay found when more bytes
/// follow: splitting `data + more` gives them, then whatever the rest from
/// where they ended gives.
pub proof fn lemma_commands_ext(data: Seq<u8>, more: Seq<u8>, off: int)
    requires
        0 <= off,
        spec_commands(data, off) is Done,
    ensures
        spec_commands(data, off) matches Commands::Done(cs, used) && spec_commands(data + more, off)
            == commands_after(cs, spec_commands(data + more, used)),
    decreases data.len() - off,
{
    let d = data + more;
    if off < data.len() {
        match spec_frame(data, off) {
            Frame::Command(ts, e) => {
                lemma_frame_ext(data, more, off);
                lemma_commands_ext(data, more, e);
                lemma_commands_after_assoc(ts, spec_commands(data, e)->Done_0, spec_commands(d,
                    spec_commands(data, e)->Done_1));
            },
            Frame::Blank(e) => {
                lemma_frame_ext(data, more, off);
                lemma_commands_ext(data, more, e);
            },
            Frame::Incomplete => {
                lemma_commands_after_empty(spec_commands(d, off));
            },
            Frame::Invalid => {},
        }
    } else {
        lemma_commands_after_empty(spec_commands(d, off));
    }
}

proof fn lemma_commands_after_empty(r: Commands)
    ensures
        commands_after(seq![], r) == r,
{
    if let Commands::Done(cs, e) = r {
        assert(Seq::<Seq<Seq<u8>>>::empty() + cs =~= cs);
    }
}

proof fn lemma_commands_after_assoc(ts: Seq<Seq<u8>>, cs: Seq<Seq<Seq<u8>>>, r: Commands)
    ensures
        match commands_after(cs, r) {
            Commands::Done(all, e) => Commands::Done(seq![ts] + all, e),
            Commands::Invalid => Commands::Invalid,
        } == commands_after(seq![ts] + cs, r),
{
    if let Commands::Done(rest, e) = r {
        assert(seq![ts] + (cs + rest) =~= (seq![ts] + cs) + rest);
    }
}

/// Splitting from `off` within the input consumes up to a point that lies
/// between `off` and the end of the input.
pub proof fn lemma_commands_used(data: Seq<u8>, off: int)
    requires
        0 <= off <= data.len(),
    ensures
        spec_commands(data, off) matches Commands::Done(_, used) ==> off <= used <= data.len(),
    decreases data.len() - off,
{
    if off < data.len() {
        match spec_frame(data, off) {
            Frame::Command(_, e) => {
                if e > off && e <= data.len() {
                    lemma_commands_used(data, e);
                }
            },
            Frame::Blank(e) => {
                if e > off && e <= data.len() {
                    lemma_commands_used(data, e);
                }
            },
            _ => {},
        }
    }
}

/// What the processor does with a partial command: splitting `data`
/// consumes `used` bytes; splitting `data + more` at once gives the same
/// commands, then exactly what splitting the leftover bytes with `more`
/// appended gives, its offsets counted from `used`.
pub proof fn lemma_split_then_retry(data: Seq<u8>, more: Seq<u8>)
    requires
        spec_commands(data, 0) is Done,
    ensures
        spec_commands(data, 0) matches Commands::Done(cmds, used) && spec_commands(data + more, 0)
            == commands_after(
            cmds,
            shift_commands(spec_commands(data.subrange(used, data.len() as int) + more, 0), used),
        ),
{
    lemma_commands_ext(data, more, 0);
    lemma_commands_used(data, 0);
    let used = spec_commands(data, 0)->Done_1;
    let pre = data.subrange(0, used);
    let x = data.subrange(used, data.len() as int) + more;
    assert(data + more =~= pre + x);
    lemma_commands_shift(pre, x, 0);
}

proof fn lemma_lf_index_at(data: Seq<u8>, from: int, k: int)
    requires
        0 <= from <= k < data.len(),
        data[k] == 10,
        forall|j: int| from <= j < k ==> data[j] != 10,
    ensures
        lf_index(data, from) == k,
    decreases k - from,
{
    if from < k {
        lemma_lf_index_at(data, from + 1, k);
    }
}

/// An inline command line gives the same words whether it ends in CRLF or
/// in LF alone: the words of the line split at blanks, as one command that
/// takes the whole input.
pub proof fn lemma_inline_line_endings(line: Seq<u8>)
    requires
        line.len() > 0,
        line[0] != 42,
        forall|j: int| 0 <= j < line.len() ==> #[trigger] line[j] != 10 && line[j] != 13,
        split_words(line).len() > 0,
        all_utf8(split_words(line)),
    ensures
        spec_commands(line.push(10), 0) == Commands::Done(
            seq![split_words(line)],
            line.len() + 1int,
        ),
        spec_commands(line + seq![13u8, 10u8], 0) == Commands::Done(
            seq![split_words(line)],
            line.len() + 2int,
        ),
{
    let lf = line.push(10);
    let crlf = line + seq![13u8, 10u8];
    lemma_lf_index_at(lf, 0, line.len() as int);
    lemma_lf_index_at(crlf, 0, line.len() + 1int);
    assert(lf.subrange(0, line.len() as int) =~= line);
    assert(strip_cr(line) == line);
    assert(crlf.subrange(0, line.len() + 1int) =~= line.push(13));
    assert(line.push(13).drop_last() =~= line);
    assert(strip_cr(line.push(13)) == line);
    assert(lf[0] == line[0]);
    assert(crlf[0] == line[0]);
    assert(spec_frame(lf, 0) == Frame::Command(split_words(line), line.len() + 1int));
    assert(spec_frame(crlf, 0) == Frame::Command(split_words(line), line.len() + 2int));
    assert(spec_commands(lf, line.len() + 1int) == Commands::Done(seq![], line.len() + 1int));
    assert(spec_commands(crlf, line.len() + 2int) == Commands::Done(seq![], line.len() + 2int));
    assert(seq![split_words(line)] + Seq::<Seq<Seq<u8>>>::empty() =~= seq![split_words(line)]);
}

} // verus!
