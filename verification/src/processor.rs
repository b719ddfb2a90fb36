//! The request pipeline: split the input into commands and run them on the
//! store.
use vstd::prelude::*;
use vstd::utf8::*;

use crate::cmd::RedisCommand;
use crate::config::EvictionPolicy;
use crate::eval::{
    cleanup_outcome, command_outcome, has_volatile, texts, usage_kept, Entry, RedisState,
};
use crate::platform::{ascii_upper_text, io_error, make_ascii_uppercase, now_millis, IoErrorKind};
use crate::protocol::CommandProcessor;
use crate::request::{
    commands_hold, decode_commands, lemma_commands_nonempty, lemma_commands_rest, spec_commands,
    spec_frame, words_text, Commands,
};
use crate::request_laws::lemma_split_then_retry;
use crate::resp::{lemma_encode_items_push, spec_encode, spec_encode_items, ValueModel};

verus! {

/// The name under which a command runs: its first word in ASCII upper case.
pub open spec fn command_name(tokens: Seq<Seq<u8>>) -> Seq<char> {
    ascii_upper_text(decode_utf8(tokens[0]))
}

/// The arguments of a command: the text of its other words.
pub open spec fn command_args(tokens: Seq<Seq<u8>>) -> Seq<Seq<char>> {
    words_text(tokens.subrange(1, tokens.len() as int))
}

/// The entries of a store, its expiry index and its usage data.
pub type StoreModel = (Map<Seq<char>, Entry>, Map<Seq<char>, u64>, Map<Seq<char>, (u64, u32)>);

/// Running `cmds` one after another at `now` takes the store through
/// `states` (from the first to the last) and answers `replies`.
pub open spec fn commands_run(
    cmds: Seq<Seq<Seq<u8>>>,
    now: i64,
    max_keys: usize,
    policy: Option<EvictionPolicy>,
    states: Seq<StoreModel>,
    replies: Seq<ValueModel>,
) -> bool {
    &&& states.len() == cmds.len() + 1
    &&& replies.len() == cmds.len()
    &&& forall|i: int|
        0 <= i < cmds.len() ==> command_outcome(
            command_name(#[trigger] cmds[i]),
            command_args(cmds[i]),
            now,
            max_keys,
            policy,
            states[i].0,
            states[i].1,
            states[i].2,
            states[i + 1].0,
            states[i + 1].1,
            states[i + 1].2,
            replies[i],
        )
}

/// Running `cmds` one after another at `now` can take the store from `start`
/// to `end` and append exactly their replies to `out0`, giving `out1`.
pub open spec fn ran(
    cmds: Seq<Seq<Seq<u8>>>,
    now: i64,
    max_keys: usize,
    policy: Option<EvictionPolicy>,
    start: StoreModel,
    end: StoreModel,
    out0: Seq<u8>,
    out1: Seq<u8>,
) -> bool {
    exists|states: Seq<StoreModel>, replies: Seq<ValueModel>|
        commands_run(cmds, now, max_keys, policy, states, replies) && states[0] == start
            && states.last() == end && out1 == out0 + spec_encode_items(replies)
}

pub struct RespCommandProcessor {
    state: RedisState,
}

impl RespCommandProcessor {
    pub closed spec fn entries(&self) -> Map<Seq<char>, Entry> {
        self.state.entries()
    }

    pub closed spec fn expiries(&self) -> Map<Seq<char>, u64> {
        self.state.expiries()
    }

    pub closed spec fn usage(&self) -> Map<Seq<char>, (u64, u32)> {
        self.state.usage()
    }

    pub closed spec fn max_keys(&self) -> usize {
        self.state.max_keys
    }

    pub closed spec fn policy(&self) -> Option<EvictionPolicy> {
        self.state.eviction_policy
    }

    /// A processor over an empty store that holds at most `max_keys` keys.
    pub fn new(max_keys: usize, eviction_policy: Option<EvictionPolicy>) -> (p: Self)
        ensures
            p.ready(),
            p.entries() == Map::<Seq<char>, Entry>::empty(),
            p.max_keys() == max_keys,
            p.policy() == eviction_policy,
    {
        RespCommandProcessor { state: RedisState::new(max_keys, eviction_policy) }
    }

    /// Runs the complete commands in `data` at `now`, appending their replies
    /// to `out`, and returns how many bytes they took. Fails, running nothing,
    /// when `data` holds something that is no command.
    pub fn process_at(&mut self, data: &[u8], now: i64, out: &mut Vec<u8>) -> (r: Result<
        usize,
        std::io::Error,
    >)
        requires
            old(self).ready(),
            data@.len() < usize::MAX,
        ensures
            final(self).ready(),
            final(self).max_keys() == old(self).max_keys(),
            final(self).policy() == old(self).policy(),
            match spec_commands(data@, 0) {
                Commands::Invalid => r is Err && final(self).entries() == old(self).entries()
                    && final(out)@ == old(out)@,
                Commands::Done(cmds, used) => r matches Ok(n) && n == used && (used == data@.len()
                    || spec_frame(data@, used) is Incomplete) && exists|
                    states: Seq<StoreModel>,
                    replies: Seq<ValueModel>,
                |
                    commands_run(
                        cmds,
                        now,
                        old(self).max_keys(),
                        old(self).policy(),
                        states,
                        replies,
                    ) && states[0] == (old(self).entries(), old(self).expiries(), old(self).usage())
                        && states.last() == (final(self).entries(), final(self).expiries(), final(self).usage())
                        && final(out)@ == old(out)@ + spec_encode_items(replies),
            },
    {
        let (commands, consumed) = match decode_commands(data) {
            Ok(v) => v,
            Err(()) => {
                return Err(io_error(IoErrorKind::InvalidData, "Invalid command"));
            },
        };
        let ghost cmds = match spec_commands(data@, 0) {
            Commands::Done(cs, _) => cs,
            _ => seq![],
        };
        proof {
            lemma_commands_nonempty(data@, 0);
            lemma_commands_rest(data@, 0);
        }
        let ghost mut states: Seq<StoreModel> = seq![(self.entries(), self.expiries(), self.usage())];
        let ghost mut replies: Seq<ValueModel> = seq![];
        let ghost out0 = out@;
        let mut i: usize = 0;
        while i < commands.len()
            invariant
                self.ready(),
                self.max_keys() == old(self).max_keys(),
                self.policy() == old(self).policy(),
                i <= commands@.len(),
                commands_hold(commands@, cmds),
                forall|j: int| 0 <= j < cmds.len() ==> #[trigger] cmds[j].len() > 0,
                commands_run(
                    cmds.subrange(0, i as int),
                    now,
                    old(self).max_keys(),
                    old(self).policy(),
                    states,
                    replies,
                ),
                states[0] == (old(self).entries(), old(self).expiries(), old(self).usage()),
                states.last() == (self.entries(), self.expiries(), self.usage()),
                out0 == old(out)@,
                out@ == out0 + spec_encode_items(replies),
            decreases commands@.len() - i,
        {
            let tokens = &commands[i];
            let ghost words = cmds[i as int];
            assert(tokens@.len() == words.len() && words.len() > 0);
            let mut cmd_name = tokens[0].clone();
            make_ascii_uppercase(&mut cmd_name);
            let mut args: Vec<String> = Vec::new();
            let mut k: usize = 1;
            while k < tokens.len()
                invariant
                    1 <= k <= tokens@.len(),
                    tokens@.len() == words.len(),
                    forall|j: int| 0 <= j < tokens@.len() ==> #[trigger] tokens@[j]@ == decode_utf8(
                        words[j],
                    ),
                    args@.len() == k - 1,
                    forall|j: int| 0 <= j < k - 1 ==> #[trigger] args@[j]@ == decode_utf8(
                        words[j + 1],
                    ),
                decreases tokens@.len() - k,
            {
                args.push(tokens[k].clone());
                k = k + 1;
            }
            let cmd = RedisCommand::new(cmd_name, args);
            proof {
                assert(cmd.cmd@ == command_name(words));
                assert(texts(cmd.args@) =~= command_args(words));
            }
            let ghost before_out = out@;
            self.state.eval_command(&cmd, now, out);
            proof {
                let reply = choose|reply: ValueModel|
                    command_outcome(
                        cmd.cmd@,
                        texts(cmd.args@),
                        now,
                        old(self).max_keys(),
                        old(self).policy(),
                        states.last().0,
                        states.last().1,
                        states.last().2,
                        self.entries(),
                        self.expiries(),
                        self.usage(),
                        reply,
                    ) && out@ == before_out + spec_encode(reply);
                lemma_encode_items_push(replies, reply);
                let old_states = states;
                states = states.push((self.entries(), self.expiries(), self.usage()));
                replies = replies.push(reply);
                let done = cmds.subrange(0, i + 1);
                assert forall|j: int| 0 <= j < done.len() implies command_outcome(
                    command_name(#[trigger] done[j]),
                    command_args(done[j]),
                    now,
                    old(self).max_keys(),
                    old(self).policy(),
                    states[j].0,
                    states[j].1,
                    states[j].2,
                    states[j + 1].0,
                    states[j + 1].1,
                    states[j + 1].2,
                    replies[j],
                ) by {
                    if j < i {
                        assert(done[j] == cmds.subrange(0, i as int)[j]);
                        assert(states[j] == old_states[j]);
                        assert(states[j + 1] == old_states[j + 1]);
                    } else {
                        assert(done[j] == words);
                    }
                }
            }
            i = i + 1;
        }
        proof {
            assert(cmds.subrange(0, commands@.len() as int) =~= cmds);
        }
        Ok(consumed)
    }
}

impl CommandProcessor for RespCommandProcessor {
    closed spec fn ready(&self) -> bool {
        self.state.wf()
    }

    fn process(&mut self, data: &[u8], out: &mut Vec<u8>) -> (r: Result<usize, std::io::Error>)
        ensures
            final(self).max_keys() == old(self).max_keys(),
            final(self).policy() == old(self).policy(),
            match spec_commands(data@, 0) {
                Commands::Invalid => r is Err && final(self).entries() == old(self).entries()
                    && final(out)@ == old(out)@,
                Commands::Done(cmds, used) => r matches Ok(n) && n == used && (used == data@.len()
                    || spec_frame(data@, used) is Incomplete) && exists|
                    now: i64,
                    states: Seq<StoreModel>,
                    replies: Seq<ValueModel>,
                |
                    commands_run(
                        cmds,
                        now,
                        old(self).max_keys(),
                        old(self).policy(),
                        states,
                        replies,
                    ) && states[0] == (old(self).entries(), old(self).expiries(), old(self).usage())
                        && states.last() == (final(self).entries(), final(self).expiries(), final(self).usage())
                        && final(out)@ == old(out)@ + spec_encode_items(replies),
            },
    {
        let now = now_millis();
        self.process_at(data, now, out)
    }

    fn cleanup_expired_keys(&mut self) -> (r: Result<(), std::io::Error>)
        ensures
            r is Ok,
            final(self).max_keys() == old(self).max_keys(),
            final(self).policy() == old(self).policy(),
            final(self).entries().submap_of(old(self).entries()),
            forall|k: Seq<char>|
                #![trigger old(self).entries().contains_key(k), final(self).entries().contains_key(k)]
                old(self).entries().contains_key(k) && !final(self).entries().contains_key(k)
                    ==> old(self).entries()[k].expires_at != -1,
            !has_volatile(old(self).entries()) ==> final(self).entries() == old(self).entries(),
            exists|now: i64| cleanup_outcome(old(self).entries(), final(self).entries(), now),
            usage_kept(old(self).usage(), final(self).usage(), final(self).entries()),
    {
        self.state.cleanup_expired_keys();
        Ok(())
    }
}

/// The bytes of a run of replies followed by another are those of the two
/// runs one after the other.
pub proof fn lemma_encode_items_concat(r1: Seq<ValueModel>, r2: Seq<ValueModel>)
    ensures
        spec_encode_items(r1 + r2) == spec_encode_items(r1) + spec_encode_items(r2),
    decreases r2.len(),
{
    if r2.len() == 0 {
        assert(r1 + r2 =~= r1);
        assert(spec_encode_items(r2) =~= Seq::<u8>::empty());
        assert(spec_encode_items(r1) + Seq::<u8>::empty() =~= spec_encode_items(r1));
    } else {
        let init = r2.drop_last();
        lemma_encode_items_concat(r1, init);
        lemma_encode_items_push(r1 + init, r2.last());
        lemma_encode_items_push(init, r2.last());
        assert((r1 + init).push(r2.last()) =~= r1 + r2);
        assert(init.push(r2.last()) =~= r2);
        assert(spec_encode_items(r1) + spec_encode_items(init) + spec_encode(r2.last())
            =~= spec_encode_items(r1) + (spec_encode_items(init) + spec_encode(r2.last())));
    }
}

/// A command a processor cannot finish waits for more bytes without loss:
/// running the complete commands of `a`, then those of the bytes it left
/// over with `b` appended, is running the complete commands of `a + b` at
/// once, at the same time. The commands are the same, one after another,
/// and so are the store states and replies, and the byte counts add up.
pub proof fn lemma_process_retry(
    a: Seq<u8>,
    b: Seq<u8>,
    c1: Seq<Seq<Seq<u8>>>,
    u1: int,
    c2: Seq<Seq<Seq<u8>>>,
    u2: int,
    now: i64,
    max_keys: usize,
    policy: Option<EvictionPolicy>,
    s0: StoreModel,
    s1: StoreModel,
    s2: StoreModel,
    out0: Seq<u8>,
    out1: Seq<u8>,
    out2: Seq<u8>,
)
    requires
        spec_commands(a, 0) == Commands::Done(c1, u1),
        ran(c1, now, max_keys, policy, s0, s1, out0, out1),
        spec_commands(a.subrange(u1, a.len() as int) + b, 0) == Commands::Done(c2, u2),
        ran(c2, now, max_keys, policy, s1, s2, out1, out2),
    ensures
        spec_commands(a + b, 0) == Commands::Done(c1 + c2, u1 + u2),
        ran(c1 + c2, now, max_keys, policy, s0, s2, out0, out2),
{
    lemma_split_then_retry(a, b);
    let (st1, re1) = choose|states: Seq<StoreModel>, replies: Seq<ValueModel>|
        commands_run(c1, now, max_keys, policy, states, replies) && states[0] == s0
            && states.last() == s1 && out1 == out0 + spec_encode_items(replies);
    let (st2, re2) = choose|states: Seq<StoreModel>, replies: Seq<ValueModel>|
        commands_run(c2, now, max_keys, policy, states, replies) && states[0] == s1
            && states.last() == s2 && out2 == out1 + spec_encode_items(replies);
    let cs = c1 + c2;
    let st = st1 + st2.drop_first();
    let re = re1 + re2;
    let n1 = c1.len() as int;
    assert forall|i: int| 0 <= i < cs.len() implies command_outcome(
        command_name(#[trigger] cs[i]),
        command_args(cs[i]),
        now,
        max_keys,
        policy,
        st[i].0,
        st[i].1,
        st[i].2,
        st[i + 1].0,
        st[i + 1].1,
        st[i + 1].2,
        re[i],
    ) by {
        if i < n1 {
            assert(cs[i] == c1[i]);
            assert(st[i] == st1[i]);
            if i + 1 < st1.len() {
                assert(st[i + 1] == st1[i + 1]);
            } else {
                assert(st[i + 1] == st2[0]);
            }
            assert(re[i] == re1[i]);
        } else {
            assert(cs[i] == c2[i - n1]);
            assert(st[i] == st2[i - n1]);
            assert(st[i + 1] == st2[i - n1 + 1]);
            assert(re[i] == re2[i - n1]);
        }
    }
    lemma_encode_items_concat(re1, re2);
    assert(out2 == out0 + spec_encode_items(re)) by {
        assert(out0 + spec_encode_items(re1) + spec_encode_items(re2) =~= out0 + (
        spec_encode_items(re1) + spec_encode_items(re2)));
    }
    assert(commands_run(cs, now, max_keys, policy, st, re));
    assert(st[0] == s0);
    assert(st.last() == s2);
}

} // verus!
