//! Splitting a client's input into commands: RESP arrays of bulk strings, or
//! inline lines of words. A command that has not fully arrived is left for
//! a later call.
use vstd::prelude::*;
use vstd::utf8::*;

use crate::decimal::{parse_i64, parse_i64_spec};
use crate::platform::utf8_string;
use crate::resp::{lemma_line_end, line_end};

verus! {

/// Index of the first line feed at or after `from`, or the length of `data`
/// when there is none.
pub open spec fn lf_index(data: Seq<u8>, from: int) -> int
    decreases data.len() - from,
{
    if from < 0 || from >= data.len() {
        data.len() as int
    } else if data[from] == 10 {
        from
    } else {
        lf_index(data, from + 1)
    }
}

pub open spec fn is_blank(b: u8) -> bool {
    b == 32 || b == 9
}

/// Index of the first blank at or after `from`, or the length of `s`.
pub open spec fn word_end(s: Seq<u8>, from: int) -> int
    decreases s.len() - from,
{
    if from < 0 || from >= s.len() {
        s.len() as int
    } else if is_blank(s[from]) {
        from
    } else {
        word_end(s, from + 1)
    }
}

/// The words of an inline command: the runs of bytes between blanks.
pub open spec fn split_words(s: Seq<u8>) -> Seq<Seq<u8>>
    decreases s.len(),
{
    if s.len() == 0 {
        seq![]
    } else if is_blank(s[0]) {
        split_words(s.drop_first())
    } else {
        let e = word_end(s, 0);
        if e <= 0 || e > s.len() {
            seq![]
        } else {
            seq![s.subrange(0, e)] + split_words(s.subrange(e, s.len() as int))
        }
    }
}

/// An inline line without its line feed, and without a carriage return
/// before it.
pub open spec fn strip_cr(line: Seq<u8>) -> Seq<u8> {
    if line.len() > 0 && line.last() == 13 {
        line.drop_last()
    } else {
        line
    }
}

pub open spec fn all_utf8(words: Seq<Seq<u8>>) -> bool {
    forall|i: int| 0 <= i < words.len() ==> valid_utf8(#[trigger] words[i])
}

/// One bulk string of a command array, at `o`: its bytes and where it ends.
pub enum Piece {
    Done(Seq<u8>, int),
    Incomplete,
    Invalid,
}

/// Several bulk strings of a command array, one after another.
pub enum Pieces {
    Done(Seq<Seq<u8>>, int),
    Incomplete,
    Invalid,
}

/// What stands at the front of the input: a command and where it ends, a
/// blank inline line, a command that has not fully arrived, or bytes that
/// are no command.
pub enum Frame {
    Command(Seq<Seq<u8>>, int),
    Blank(int),
    Incomplete,
    Invalid,
}

/// The commands that the whole input holds, and how many bytes they take.
pub enum Commands {
    Done(Seq<Seq<Seq<u8>>>, int),
    Invalid,
}

pub open spec fn spec_bulk_arg(data: Seq<u8>, o: int) -> Piece {
    if o < 0 || o >= data.len() {
        Piece::Incomplete
    } else if data[o] != 36 {
        Piece::Invalid
    } else {
        let p = line_end(data, o + 1);
        if p + 1 >= data.len() {
            Piece::Incomplete
        } else if data[p + 1] != 10 {
            Piece::Invalid
        } else {
            match parse_i64_spec(data.subrange(o + 1, p)) {
                None => Piece::Invalid,
                Some(n) => if n < 0 {
                    Piece::Invalid
                } else if p + 2 + n + 2 > data.len() {
                    Piece::Incomplete
                } else if data[p + 2 + n] != 13 || data[p + 3 + n] != 10 {
                    Piece::Invalid
                } else if !valid_utf8(data.subrange(p + 2, p + 2 + n)) {
                    Piece::Invalid
                } else {
                    Piece::Done(data.subrange(p + 2, p + 2 + n), p + 4 + n)
                },
            }
        }
    }
}

pub open spec fn spec_bulk_args(data: Seq<u8>, o: int, count: int) -> Pieces
    decreases count,
{
    if count <= 0 {
        Pieces::Done(seq![], o)
    } else {
        match spec_bulk_arg(data, o) {
            Piece::Done(t, e) => match spec_bulk_args(data, e, count - 1) {
                Pieces::Done(ts, end) => Pieces::Done(seq![t] + ts, end),
                other => other,
            },
            Piece::Incomplete => Pieces::Incomplete,
            Piece::Invalid => Pieces::Invalid,
        }
    }
}

pub open spec fn spec_frame(data: Seq<u8>, off: int) -> Frame {
    if 0 <= off < data.len() && data[off] == 42 {
        let p = line_end(data, off + 1);
        if p + 1 >= data.len() {
            Frame::Incomplete
        } else if data[p + 1] != 10 {
            Frame::Invalid
        } else {
            match parse_i64_spec(data.subrange(off + 1, p)) {
                None => Frame::Invalid,
                Some(count) => if count <= 0 {
                    Frame::Invalid
                } else {
                    match spec_bulk_args(data, p + 2, count as int) {
                        Pieces::Done(ts, e) => Frame::Command(ts, e),
                        Pieces::Incomplete => Frame::Incomplete,
                        Pieces::Invalid => Frame::Invalid,
                    }
                },
            }
        }
    } else {
        let nl = lf_index(data, off);
        if nl >= data.len() {
            Frame::Incomplete
        } else {
            let words = split_words(strip_cr(data.subrange(off, nl)));
            if words.len() == 0 {
                Frame::Blank(nl + 1)
            } else if !all_utf8(words) {
                Frame::Invalid
            } else {
                Frame::Command(words, nl + 1)
            }
        }
    }
}

pub open spec fn spec_commands(data: Seq<u8>, off: int) -> Commands
    decreases data.len() - off,
{
    if off < 0 || off >= data.len() {
        Commands::Done(seq![], off)
    } else {
        match spec_frame(data, off) {
            Frame::Command(ts, e) => if e <= off || e > data.len() {
                Commands::Invalid
            } else {
                match spec_commands(data, e) {
                    Commands::Done(cs, end) => Commands::Done(seq![ts] + cs, end),
                    Commands::Invalid => Commands::Invalid,
                }
            },
            Frame::Blank(e) => if e <= off || e > data.len() {
                Commands::Invalid
            } else {
                spec_commands(data, e)
            },
            Frame::Incomplete => Commands::Done(seq![], off),
            Frame::Invalid => Commands::Invalid,
        }
    }
}

/// The text of each word, for words that are valid UTF-8.
pub open spec fn words_text(words: Seq<Seq<u8>>) -> Seq<Seq<char>> {
    words.map_values(|w: Seq<u8>| decode_utf8(w))
}

/// The strings hold the text of the words.
pub open spec fn strings_hold(v: Seq<String>, words: Seq<Seq<u8>>) -> bool {
    &&& v.len() == words.len()
    &&& forall|i: int| 0 <= i < v.len() ==> #[trigger] v[i]@ == decode_utf8(words[i])
}

/// The commands hold the text of the words of each command.
pub open spec fn commands_hold(v: Seq<Vec<String>>, cmds: Seq<Seq<Seq<u8>>>) -> bool {
    &&& v.len() == cmds.len()
    &&& forall|i: int| 0 <= i < v.len() ==> strings_hold(#[trigger] v[i]@, cmds[i])
}

/// Finds the first carriage return at or after `from`.
pub fn find_cr(data: &[u8], from: usize) -> (p: usize)
    requires
        from <= data@.len(),
    ensures
        p == line_end(data@, from as int),
        from <= p <= data@.len(),
{
    proof {
        lemma_line_end(data@, from as int);
    }
    let mut pos: usize = from;
    while pos < data.len() && data[pos] != 13u8
        invariant
            from <= pos <= data@.len(),
            line_end(data@, from as int) == line_end(data@, pos as int),
        decreases data@.len() - pos,
    {
        pos = pos + 1;
    }
    pos
}

/// Finds the first line feed at or after `from`.
pub fn find_lf(data: &[u8], from: usize) -> (p: usize)
    requires
        from <= data@.len(),
    ensures
        p == lf_index(data@, from as int),
        from <= p <= data@.len(),
{
    let mut pos: usize = from;
    while pos < data.len() && data[pos] != 10u8
        invariant
            from <= pos <= data@.len(),
            lf_index(data@, from as int) == lf_index(data@, pos as int),
        decreases data@.len() - pos,
    {
        pos = pos + 1;
    }
    pos
}

/// Reads the bulk string at `o`: `Ok(Some((text, end)))`, `Ok(None)` when
/// it has not fully arrived, `Err(())` when the bytes are no bulk string.
pub fn bulk_arg(data: &[u8], o: usize) -> (r: Result<Option<(String, usize)>, ()>)
    requires
        data@.len() < usize::MAX,
    ensures
        match spec_bulk_arg(data@, o as int) {
            Piece::Done(t, e) => r matches Ok(Some((s, end))) && s@ == decode_utf8(t) && end == e,
            Piece::Incomplete => r matches Ok(None),
            Piece::Invalid => r is Err,
        },
{
    if o >= data.len() {
        return Ok(None);
    }
    if data[o] != 36u8 {
        return Err(());
    }
    let p = find_cr(data, o + 1);
    if p + 1 >= data.len() {
        return Ok(None);
    }
    if data[p + 1] != 10u8 {
        return Err(());
    }
    let n = match parse_i64(&data[o + 1..p]) {
        Some(v) => v,
        None => {
            return Err(());
        },
    };
    if n < 0 {
        return Err(());
    }
    let body = p + 2;
    let room = data.len() - body;
    if (n as u64) > (room as u64) || room - (n as usize) < 2 {
        return Ok(None);
    }
    let end = body + n as usize;
    if data[end] != 13u8 || data[end + 1] != 10u8 {
        return Err(());
    }
    match utf8_string(&data[body..end]) {
        Some(s) => Ok(Some((s, end + 2))),
        None => Err(()),
    }
}

/// Splits an inline line into its words.
pub fn split_line(line: &[u8]) -> (words: Vec<Vec<u8>>)
    ensures
        words@.len() == split_words(line@).len(),
        forall|i: int| 0 <= i < words@.len() ==> #[trigger] words@[i]@ == split_words(line@)[i],
{
    let mut words: Vec<Vec<u8>> = Vec::new();
    let ghost mut got: Seq<Seq<u8>> = seq![];
    let mut pos: usize = 0;
    assert(line@.subrange(0, line@.len() as int) =~= line@);
    while pos < line.len()
        invariant
            pos <= line@.len(),
            got.len() == words@.len(),
            forall|i: int| 0 <= i < got.len() ==> #[trigger] words@[i]@ == got[i],
            split_words(line@) == got + split_words(line@.subrange(pos as int, line@.len() as int)),
        decreases line@.len() - pos,
    {
        let ghost rest = line@.subrange(pos as int, line@.len() as int);
        if line[pos] == 32u8 || line[pos] == 9u8 {
            assert(rest.drop_first() =~= line@.subrange(pos + 1, line@.len() as int));
            pos = pos + 1;
        } else {
            let mut end: usize = pos + 1;
            while end < line.len() && line[end] != 32u8 && line[end] != 9u8
                invariant
                    pos < end <= line@.len(),
                    rest == line@.subrange(pos as int, line@.len() as int),
                    word_end(rest, 0) == word_end(rest, end - pos),
                decreases line@.len() - end,
            {
                end = end + 1;
            }
            proof {
                assert(word_end(rest, 0) == word_end(rest, 1));
                assert(word_end(rest, end - pos) == end - pos);
                assert(rest.subrange(0, end - pos) =~= line@.subrange(pos as int, end as int));
                assert(rest.subrange(end - pos, rest.len() as int) =~= line@.subrange(
                    end as int,
                    line@.len() as int,
                ));
                assert(got + (seq![rest.subrange(0, end - pos)] + split_words(
                    rest.subrange(end - pos, rest.len() as int),
                )) =~= got.push(rest.subrange(0, end - pos)) + split_words(
                    rest.subrange(end - pos, rest.len() as int),
                ));
            }
            let mut word: Vec<u8> = Vec::new();
            crate::resp::append_bytes(&mut word, &line[pos..end]);
            proof {
                got = got.push(word@);
            }
            words.push(word);
            pos = end;
        }
    }
    proof {
        assert(line@.subrange(pos as int, line@.len() as int) =~= Seq::<u8>::empty());
        assert(got + Seq::<Seq<u8>>::empty() =~= got);
    }
    words
}

/// The front of the input as exec values.
pub enum FrameRead {
    Command(Vec<String>, usize),
    Blank(usize),
    Incomplete,
    Invalid,
}

pub open spec fn frame_agrees(r: FrameRead, f: Frame) -> bool {
    match f {
        Frame::Command(ts, e) => r matches FrameRead::Command(v, end) && strings_hold(v@, ts) && end
            == e,
        Frame::Blank(e) => r matches FrameRead::Blank(end) && end == e,
        Frame::Incomplete => r is Incomplete,
        Frame::Invalid => r is Invalid,
    }
}

/// Reads the bulk strings of a command array whose header ends at `o`.
fn bulk_args(data: &[u8], o: usize, count: u64) -> (r: Result<Option<(Vec<String>, usize)>, ()>)
    requires
        data@.len() < usize::MAX,
    ensures
        match spec_bulk_args(data@, o as int, count as int) {
            Pieces::Done(ts, e) => r matches Ok(Some((v, end))) && strings_hold(v@, ts) && end == e,
            Pieces::Incomplete => r matches Ok(None),
            Pieces::Invalid => r is Err,
        },
{
    let mut args: Vec<String> = Vec::new();
    let ghost mut got: Seq<Seq<u8>> = seq![];
    let mut off: usize = o;
    let mut i: u64 = 0;
    proof {
        assert(spec_bulk_args(data@, o as int, count as int) == pieces_after(
            got,
            spec_bulk_args(data@, off as int, (count - i) as int),
        )) by {
            match spec_bulk_args(data@, o as int, count as int) {
                Pieces::Done(ts, e) => {
                    assert(got + ts =~= ts);
                },
                _ => {},
            }
        }
    }
    while i < count
        invariant
            data@.len() < usize::MAX,
            i <= count,
            strings_hold(args@, got),
            spec_bulk_args(data@, o as int, count as int) == pieces_after(
                got,
                spec_bulk_args(data@, off as int, (count - i) as int),
            ),
        decreases count - i,
    {
        match bulk_arg(data, off) {
            Ok(Some((s, end))) => {
                let ghost t = match spec_bulk_arg(data@, off as int) {
                    Piece::Done(t, _) => t,
                    _ => seq![],
                };
                proof {
                    assert(pieces_after(
                        got,
                        spec_bulk_args(data@, off as int, (count - i) as int),
                    ) == pieces_after(
                        got.push(t),
                        spec_bulk_args(data@, end as int, (count - i - 1) as int),
                    )) by {
                        match spec_bulk_args(data@, end as int, (count - i - 1) as int) {
                            Pieces::Done(ts, e) => {
                                assert(got + (seq![t] + ts) =~= got.push(t) + ts);
                            },
                            _ => {},
                        }
                    }
                    got = got.push(t);
                }
                args.push(s);
                off = end;
                i = i + 1;
            },
            Ok(None) => {
                return Ok(None);
            },
            Err(()) => {
                return Err(());
            },
        }
    }
    proof {
        assert(got + Seq::<Seq<u8>>::empty() =~= got);
    }
    Ok(Some((args, off)))
}

pub open spec fn pieces_after(front: Seq<Seq<u8>>, r: Pieces) -> Pieces {
    match r {
        Pieces::Done(ts, e) => Pieces::Done(front + ts, e),
        other => other,
    }
}

/// Reads what stands at `off`.
pub fn read_frame(data: &[u8], off: usize) -> (r: FrameRead)
    requires
        data@.len() < usize::MAX,
        off < data@.len(),
    ensures
        frame_agrees(r, spec_frame(data@, off as int)),
{
    if data[off] == 42u8 {
        let p = find_cr(data, off + 1);
        if p + 1 >= data.len() {
            return FrameRead::Incomplete;
        }
        if data[p + 1] != 10u8 {
            return FrameRead::Invalid;
        }
        let count = match parse_i64(&data[off + 1..p]) {
            Some(v) => v,
            None => {
                return FrameRead::Invalid;
            },
        };
        if count <= 0 {
            return FrameRead::Invalid;
        }
        match bulk_args(data, p + 2, count as u64) {
            Ok(Some((args, end))) => FrameRead::Command(args, end),
            Ok(None) => FrameRead::Incomplete,
            Err(()) => FrameRead::Invalid,
        }
    } else {
        let nl = find_lf(data, off);
        if nl >= data.len() {
            return FrameRead::Incomplete;
        }
        let line_end_at: usize = if nl > off && data[nl - 1] == 13u8 {
            nl - 1
        } else {
            nl
        };
        proof {
            let line = data@.subrange(off as int, nl as int);
            assert(strip_cr(line) =~= data@.subrange(off as int, line_end_at as int));
        }
        let words = split_line(&data[off..line_end_at]);
        if words.len() == 0 {
            return FrameRead::Blank(nl + 1);
        }
        let mut strings: Vec<String> = Vec::new();
        let mut i: usize = 0;
        let ghost all = split_words(data@.subrange(off as int, line_end_at as int));
        assert(spec_frame(data@, off as int) == (if all_utf8(all) {
            Frame::Command(all, nl + 1)
        } else {
            Frame::Invalid
        }));
        while i < words.len()
            invariant
                spec_frame(data@, off as int) == (if all_utf8(all) {
                    Frame::Command(all, nl + 1)
                } else {
                    Frame::Invalid
                }),
                i <= words@.len(),
                words@.len() == all.len(),
                forall|j: int| 0 <= j < words@.len() ==> #[trigger] words@[j]@ == all[j],
                strings@.len() == i,
                forall|j: int| 0 <= j < i ==> #[trigger] strings@[j]@ == decode_utf8(all[j]),
                forall|j: int| 0 <= j < i ==> valid_utf8(#[trigger] all[j]),
            decreases words@.len() - i,
        {
            match utf8_string(words[i].as_slice()) {
                Some(s) => {
                    strings.push(s);
                },
                None => {
                    proof {
                        assert(words@[i as int]@ == all[i as int]);
                        assert(!valid_utf8(all[i as int]));
                        assert(!all_utf8(all));
                    }
                    return FrameRead::Invalid;
                },
            }
            i = i + 1;
        }
        FrameRead::Command(strings, nl + 1)
    }
}

/// Splits `data` into the commands it holds in full, with how many bytes
/// they take; bytes of a command that has not fully arrived are left over.
/// Fails when the bytes hold something that is no command.
pub fn decode_commands(data: &[u8]) -> (r: Result<(Vec<Vec<String>>, usize), ()>)
    requires
        data@.len() < usize::MAX,
    ensures
        match spec_commands(data@, 0) {
            Commands::Done(cmds, end) => r matches Ok((v, used)) && commands_hold(v@, cmds)
                && used == end,
            Commands::Invalid => r is Err,
        },
{
    let mut cmds: Vec<Vec<String>> = Vec::new();
    let ghost mut got: Seq<Seq<Seq<u8>>> = seq![];
    let mut off: usize = 0;
    proof {
        assert(spec_commands(data@, 0) == commands_after(got, spec_commands(data@, 0))) by {
            match spec_commands(data@, 0) {
                Commands::Done(cs, e) => {
                    assert(got + cs =~= cs);
                },
                _ => {},
            }
        }
    }
    while off < data.len()
        invariant
            data@.len() < usize::MAX,
            off <= data@.len(),
            commands_hold(cmds@, got),
            spec_commands(data@, 0) == commands_after(got, spec_commands(data@, off as int)),
        decreases data@.len() - off,
    {
        match read_frame(data, off) {
            FrameRead::Command(tokens, end) => {
                if end <= off || end > data.len() {
                    return Err(());
                }
                let ghost ts = match spec_frame(data@, off as int) {
                    Frame::Command(ts, _) => ts,
                    _ => seq![],
                };
                proof {
                    assert(commands_after(got, spec_commands(data@, off as int)) == commands_after(
                        got.push(ts),
                        spec_commands(data@, end as int),
                    )) by {
                        match spec_commands(data@, end as int) {
                            Commands::Done(cs, e) => {
                                assert(got + (seq![ts] + cs) =~= got.push(ts) + cs);
                            },
                            _ => {},
                        }
                    }
                    got = got.push(ts);
                }
                cmds.push(tokens);
                off = end;
            },
            FrameRead::Blank(end) => {
                if end <= off || end > data.len() {
                    return Err(());
                }
                off = end;
            },
            FrameRead::Incomplete => {
                proof {
                    assert(got + Seq::<Seq<Seq<u8>>>::empty() =~= got);
                }
                return Ok((cmds, off));
            },
            FrameRead::Invalid => {
                return Err(());
            },
        }
    }
    proof {
        assert(got + Seq::<Seq<Seq<u8>>>::empty() =~= got);
    }
    Ok((cmds, off))
}

pub open spec fn commands_after(front: Seq<Seq<Seq<u8>>>, r: Commands) -> Commands {
    match r {
        Commands::Done(cs, e) => Commands::Done(front + cs, e),
        other => other,
    }
}


pub proof fn lemma_bulk_args_len(data: Seq<u8>, o: int, count: int)
    requires
        count >= 0,
    ensures
        spec_bulk_args(data, o, count) matches Pieces::Done(ts, _) ==> ts.len() == count,
    decreases count,
{
    if count > 0 {
        match spec_bulk_arg(data, o) {
            Piece::Done(t, e) => {
                lemma_bulk_args_len(data, e, count - 1);
            },
            _ => {},
        }
    }
}

/// Every command that the input holds has at least one word.
pub proof fn lemma_commands_nonempty(data: Seq<u8>, off: int)
    ensures
        spec_commands(data, off) matches Commands::Done(cmds, _) ==> forall|i: int|
            0 <= i < cmds.len() ==> #[trigger] cmds[i].len() > 0,
    decreases data.len() - off,
{
    if 0 <= off < data.len() {
        match spec_frame(data, off) {
            Frame::Command(ts, e) => {
                if e > off && e <= data.len() {
                    lemma_commands_nonempty(data, e);
                    if 0 <= off < data.len() && data[off] == 42 {
                        let p = line_end(data, off + 1);
                        if let Some(count) = parse_i64_spec(data.subrange(off + 1, p)) {
                            lemma_bulk_args_len(data, p + 2, count as int);
                        }
                    }
                    match spec_commands(data, e) {
                        Commands::Done(cs, end) => {
                            let all = seq![ts] + cs;
                            assert forall|i: int| 0 <= i < all.len() implies #[trigger] all[i].len()
                                > 0 by {
                                if i > 0 {
                                    assert(all[i] == cs[i - 1]);
                                }
                            }
                        },
                        _ => {},
                    }
                }
            },
            Frame::Blank(e) => {
                if e > off && e <= data.len() {
                    lemma_commands_nonempty(data, e);
                }
            },
            _ => {},
        }
    }
}
/// Splitting stops at the end of the input or where an incomplete command
/// starts: the bytes left over hold no complete command.
pub proof fn lemma_commands_rest(data: Seq<u8>, off: int)
    requires
        0 <= off <= data.len(),
    ensures
        spec_commands(data, off) matches Commands::Done(_, used) ==> used == data.len()
            || spec_frame(data, used) is Incomplete,
    decreases data.len() - off,
{
    if off < data.len() {
        match spec_frame(data, off) {
            Frame::Command(_, e) => {
                if e > off && e <= data.len() {
                    lemma_commands_rest(data, e);
                }
            },
            Frame::Blank(e) => {
                if e > off && e <= data.len() {
                    lemma_commands_rest(data, e);
                }
            },
            _ => {},
        }
    }
}

} // verus!
