//! Outbound commands and their delivery states.
use vstd::prelude::*;
use vstd::string::StringSliceAdditionalSpecFns;
use vstd::utf8::encode_utf8;

use crate::tx_request::{tx_frame, TxRequest};
use crate::tx_status::TxStatus;

verus! {

/// The address that commands are sent to.
pub const BROADCAST_ADDR: u16 = 0xFFFF;

/// The least time between two writes to the link, in milliseconds.
pub const MIN_SEND_INTERVAL_MS: u64 = 100;

/// The longest command text, in bytes, that fits in one frame.
pub const MAX_COMMAND_BYTES: usize = 0xFFFF - 5;

/// Where a command stands.
#[derive(Debug, Clone, Copy, PartialEq, Eq, Structural)]
pub enum CommandStatus {
    /// Not written to the link yet.
    Unsent,
    /// Written with the given frame id; no delivery status yet.
    Sent { frame_id: u8 },
    /// A delivery status arrived for it.
    SentStatus { status: TxStatus },
}

impl CommandStatus {
    /// Whether this is `Sent` with the frame id `id`.
    pub fn is_awaiting(&self, id: u8) -> (r: bool)
        ensures
            r == (*self == CommandStatus::Sent { frame_id: id }),
    {
        match self {
            CommandStatus::Sent { frame_id } => *frame_id == id,
            _ => false,
        }
    }

    /// Whether this is `Unsent`.
    pub fn is_unsent(&self) -> (r: bool)
        ensures
            r == (*self == CommandStatus::Unsent),
    {
        match self {
            CommandStatus::Unsent => true,
            _ => false,
        }
    }
}

/// A command and where it stands.
pub struct PendingCommand {
    pub text: String,
    pub status: CommandStatus,
}

/// A command that is due to be written to the link.
pub struct Outgoing {
    /// The ticket of the command.
    pub ticket: usize,
    /// The frame id stamped into the frame.
    pub frame_id: u8,
    /// The bytes of the frame.
    pub bytes: Vec<u8>,
}

/// The frame id that follows `id`: ids run from 1 to 255 and wrap, skipping 0.
pub open spec fn next_frame_id(id: u8) -> u8 {
    if id == 255 {
        1
    } else {
        (id + 1) as u8
    }
}

/// The position of the newest command sent with `id` and still waiting for a
/// delivery status, below `hi`; `-1` when there is none.
pub open spec fn newest_awaiting(s: Seq<CommandStatus>, id: u8, hi: int) -> int
    decreases hi,
{
    if hi <= 0 {
        -1
    } else if s[hi - 1] == (CommandStatus::Sent { frame_id: id }) {
        hi - 1
    } else {
        newest_awaiting(s, id, hi - 1)
    }
}

/// The statuses after a delivery status `status` for `id` arrives: a success
/// settles the newest command waiting with that id; any other status is put on
/// every command waiting with that id.
pub open spec fn after_status(s: Seq<CommandStatus>, id: u8, status: TxStatus) -> Seq<
    CommandStatus,
> {
    if status == TxStatus::Success {
        let j = newest_awaiting(s, id, s.len() as int);
        if j < 0 {
            s
        } else {
            s.update(j, CommandStatus::SentStatus { status })
        }
    } else {
        Seq::new(
            s.len(),
            |k: int|
                if s[k] == (CommandStatus::Sent { frame_id: id }) {
                    CommandStatus::SentStatus { status }
                } else {
                    s[k]
                },
        )
    }
}

/// The bytes of a command's text.
pub open spec fn text_bytes(c: PendingCommand) -> Seq<u8> {
    encode_utf8(c.text@)
}

/// The ledger: commands in the order they were submitted.
pub struct CommandLedger {
    commands: Vec<PendingCommand>,
    next_id: u8,
    last_sent_ms: Option<u64>,
}

impl CommandLedger {
    pub closed spec fn commands(&self) -> Seq<PendingCommand> {
        self.commands@
    }

    /// The status of each command, in submission order.
    pub open spec fn statuses(&self) -> Seq<CommandStatus> {
        Seq::new(self.commands().len(), |i: int| self.commands()[i].status)
    }

    /// The frame id that the next command written gets.
    pub closed spec fn next_id(&self) -> u8 {
        self.next_id
    }

    /// When the last write happened, if any.
    pub closed spec fn last_sent(&self) -> Option<u64> {
        self.last_sent_ms
    }

    pub open spec fn wf(&self) -> bool {
        self.next_id() != 0
    }

    /// Whether the least interval between writes has passed at `now_ms`.
    pub open spec fn may_send_at(&self, now_ms: u64) -> bool {
        match self.last_sent() {
            None => true,
            Some(t) => now_ms >= t && now_ms - t >= MIN_SEND_INTERVAL_MS,
        }
    }

    /// The first command that was not written and whose text fits in a frame;
    /// `-1` when there is none.
    pub open spec fn first_unsent_from(c: Seq<PendingCommand>, lo: int) -> int
        decreases c.len() - lo,
    {
        if lo >= c.len() || lo < 0 {
            -1
        } else if c[lo].status == CommandStatus::Unsent && text_bytes(c[lo]).len()
            <= MAX_COMMAND_BYTES {
            lo
        } else {
            Self::first_unsent_from(c, lo + 1)
        }
    }

    /// An empty ledger; the first frame id is 1.
    pub fn new() -> (r: Self)
        ensures
            r.wf(),
            r.commands().len() == 0,
            r.next_id() == 1,
            r.last_sent() is None,
    {
        CommandLedger { commands: Vec::new(), next_id: 1, last_sent_ms: None }
    }

    /// The number of commands.
    pub fn len(&self) -> (r: usize)
        ensures
            r == self.commands().len(),
    {
        self.commands.len()
    }

    /// Where the command of `ticket` stands.
    pub fn status(&self, ticket: usize) -> (r: CommandStatus)
        requires
            ticket < self.commands().len(),
        ensures
            r == self.statuses()[ticket as int],
    {
        self.commands[ticket].status
    }

    /// The text of the command of `ticket`.
    pub fn text(&self, ticket: usize) -> (r: &str)
        requires
            ticket < self.commands().len(),
        ensures
            r@ == self.commands()[ticket as int].text@,
    {
        self.commands[ticket].text.as_str()
    }

    /// Records a new command, not yet written; its ticket is its position.
    pub fn submit(&mut self, text: String) -> (ticket: usize)
        requires
            old(self).wf(),
        ensures
            final(self).wf(),
            ticket == old(self).commands().len(),
            final(self).commands() == old(self).commands().push(
                PendingCommand { text, status: CommandStatus::Unsent },
            ),
            final(self).next_id() == old(self).next_id(),
            final(self).last_sent() == old(self).last_sent(),
    {
        let ticket = self.commands.len();
        self.commands.push(PendingCommand { text, status: CommandStatus::Unsent });
        ticket
    }

    /// Holds writes back for the least interval from `now_ms`, as after a write
    /// (a link that was just opened takes no command at once).
    pub fn hold_sending(&mut self, now_ms: u64)
        ensures
            final(self).commands() == old(self).commands(),
            final(self).next_id() == old(self).next_id(),
            final(self).last_sent() == Some(now_ms),
    {
        self.last_sent_ms = Some(now_ms);
    }

    fn find_unsent(&self) -> (r: Option<usize>)
        ensures
            match r {
                Some(i) => i as int == Self::first_unsent_from(self.commands(), 0) && i
                    < self.commands().len() && text_bytes(self.commands()[i as int]).len()
                    <= MAX_COMMAND_BYTES,
                None => Self::first_unsent_from(self.commands(), 0) == -1,
            },
    {
        let mut i: usize = 0;
        while i < self.commands.len()
            invariant
                i <= self.commands@.len(),
                Self::first_unsent_from(self.commands@, 0) == Self::first_unsent_from(
                    self.commands@,
                    i as int,
                ),
            decreases self.commands@.len() - i,
        {
            let c = &self.commands[i];
            if c.status.is_unsent() && c.text.as_str().as_bytes().len()
                <= MAX_COMMAND_BYTES {
                return Some(i);
            }
            i += 1;
        }
        None
    }

    /// The command to write now, if any: nothing before the least interval since
    /// the last write has passed; else the first command not yet written whose
    /// text fits in a frame, with the next frame id, which is then used up.
    pub fn next_to_send(&mut self, now_ms: u64) -> (r: Option<Outgoing>)
        requires
            old(self).wf(),
        ensures
            final(self).wf(),
            final(self).commands() == old(self).commands(),
            final(self).last_sent() == old(self).last_sent(),
            ({
                let i = Self::first_unsent_from(old(self).commands(), 0);
                if !old(self).may_send_at(now_ms) || i < 0 {
                    &&& r is None
                    &&& final(self).next_id() == old(self).next_id()
                } else {
                    &&& r matches Some(o) && o.ticket == i && o.frame_id == old(self).next_id()
                        && o.bytes@ == tx_frame(
                        o.frame_id,
                        BROADCAST_ADDR,
                        text_bytes(old(self).commands()[i]),
                    ).encode()
                    &&& final(self).next_id() == next_frame_id(old(self).next_id())
                }
            }),
    {
        match self.last_sent_ms {
            Some(t) => {
                if now_ms < t || now_ms - t < MIN_SEND_INTERVAL_MS {
                    return None;
                }
            },
            None => {},
        }
        proof {
            lemma_first_unsent_bounds(self.commands@, 0);
        }
        let i = match self.find_unsent() {
            Some(i) => i,
            None => return None,
        };
        let frame_id = self.next_id;
        self.next_id = if frame_id == 255 {
            1
        } else {
            frame_id + 1
        };
        let text = self.commands[i].text.as_str().as_bytes();
        let req = TxRequest::new(frame_id, BROADCAST_ADDR, text);
        let packet = req.into_packet();
        let bytes = packet.serialise();
        Some(Outgoing { ticket: i, frame_id, bytes })
    }

    /// Records that the frame of `ticket` was written at `now_ms` with
    /// `frame_id`: the command now waits for its delivery status.
    pub fn mark_sent(&mut self, ticket: usize, frame_id: u8, now_ms: u64)
        requires
            ticket < old(self).commands().len(),
        ensures
            final(self).statuses() == (if old(self).statuses()[ticket as int]
                == CommandStatus::Unsent {
                old(self).statuses().update(ticket as int, CommandStatus::Sent { frame_id })
            } else {
                old(self).statuses()
            }),
            final(self).commands().len() == old(self).commands().len(),
            forall|k: int|
                0 <= k < old(self).commands().len() ==> (#[trigger] final(self).commands()[k]).text
                    == old(self).commands()[k].text,
            final(self).next_id() == old(self).next_id(),
            final(self).last_sent() == Some(now_ms),
    {
        if self.commands[ticket].status.is_unsent() {
            self.commands[ticket].status = CommandStatus::Sent { frame_id };
        }
        self.last_sent_ms = Some(now_ms);
        assert(self.statuses() =~= (if old(self).statuses()[ticket as int]
            == CommandStatus::Unsent {
            old(self).statuses().update(ticket as int, CommandStatus::Sent { frame_id })
        } else {
            old(self).statuses()
        }));
    }

    /// Records a delivery status for the frame id `frame_id`.
    pub fn on_status(&mut self, frame_id: u8, status: TxStatus)
        ensures
            final(self).statuses() == after_status(old(self).statuses(), frame_id, status),
            final(self).commands().len() == old(self).commands().len(),
            forall|k: int|
                0 <= k < old(self).commands().len() ==> (#[trigger] final(self).commands()[k]).text
                    == old(self).commands()[k].text,
            final(self).next_id() == old(self).next_id(),
            final(self).last_sent() == old(self).last_sent(),
    {
        let ghost s0 = self.statuses();
        assert(s0.len() == self.commands@.len());
        if status.is_success() {
            let mut k: usize = self.commands.len();
            while k > 0
                invariant
                    k <= self.commands@.len(),
                    self.commands@ == old(self).commands@,
                    status == TxStatus::Success,
                    self.next_id == old(self).next_id,
                    self.last_sent_ms == old(self).last_sent_ms,
                    s0 == self.statuses(),
                    newest_awaiting(s0, frame_id, s0.len() as int) == newest_awaiting(
                        s0,
                        frame_id,
                        k as int,
                    ),
                decreases k,
            {
                assert(s0[k - 1] == self.commands@[k - 1].status);
                if self.commands[k - 1].status.is_awaiting(frame_id) {
                    proof {
                        lemma_newest_awaiting_is(s0, frame_id, k as int, k - 1);
                    }
                    let ghost prev = self.commands@;
                    self.commands[k - 1].status = CommandStatus::SentStatus { status };
                    assert forall|j: int| 0 <= j < self.commands@.len() && j != k - 1 implies #[trigger] self.commands@[j] == prev[j] by {}
                    assert(self.commands@[k - 1].status == (CommandStatus::SentStatus { status }));
                    assert(self.statuses() =~= after_status(s0, frame_id, status));
                    return;
                }
                proof {
                    lemma_newest_awaiting_step(s0, frame_id, k as int);
                }
                k -= 1;
            }
            assert(self.statuses() =~= after_status(s0, frame_id, status));
        } else {
            assert(after_status(s0, frame_id, status).len() == s0.len());
            let mut k: usize = 0;
            while k < self.commands.len()
                invariant
                    k <= self.commands@.len(),
                    self.commands@.len() == old(self).commands@.len(),
                    self.next_id == old(self).next_id,
                    self.last_sent_ms == old(self).last_sent_ms,
                    s0 == old(self).statuses(),
                    forall|j: int|
                        0 <= j < self.commands@.len() ==> (#[trigger] self.commands@[j]).text
                            == old(self).commands@[j].text,
                    after_status(s0, frame_id, status).len() == s0.len(),
                    status != TxStatus::Success,
                    forall|j: int|
                        0 <= j < k ==> (#[trigger] self.statuses()[j]) == after_status(
                            s0,
                            frame_id,
                            status,
                        )[j],
                    forall|j: int|
                        k <= j < self.commands@.len() ==> (#[trigger] self.statuses()[j])
                            == s0[j],
                decreases self.commands@.len() - k,
            {
                let ghost prev = self.commands@;
                let ghost prev_st = self.statuses();
                assert(self.statuses()[k as int] == s0[k as int]);
                if self.commands[k].status.is_awaiting(frame_id) {
                    self.commands[k].status = CommandStatus::SentStatus { status };
                }
                assert forall|j: int| 0 <= j < self.commands@.len() && j != k implies #[trigger] self.commands@[j] == prev[j] by {}
                assert forall|j: int| 0 <= j < self.commands@.len() && j != k implies #[trigger] self.statuses()[j] == prev_st[j] by {
                    assert(self.commands@[j] == prev[j]);
                }
                proof {
                    lemma_after_status_index(s0, frame_id, status, k as int);
                }
                assert(self.statuses()[k as int] == after_status(s0, frame_id, status)[k as int]);
                k += 1;
            }
            assert(self.statuses() =~= after_status(s0, frame_id, status));
        }
    }
}

proof fn lemma_first_unsent_bounds(c: Seq<PendingCommand>, lo: int)
    ensures
        CommandLedger::first_unsent_from(c, lo) == -1 || (lo <= CommandLedger::first_unsent_from(
            c,
            lo,
        ) < c.len() && text_bytes(c[CommandLedger::first_unsent_from(c, lo)]).len()
            <= MAX_COMMAND_BYTES && c[CommandLedger::first_unsent_from(c, lo)].status
            == CommandStatus::Unsent),
    decreases c.len() - lo,
{
    if lo < c.len() && lo >= 0 {
        lemma_first_unsent_bounds(c, lo + 1);
    }
}


proof fn lemma_newest_awaiting_step(s: Seq<CommandStatus>, id: u8, hi: int)
    requires
        0 < hi <= s.len(),
        s[hi - 1] != (CommandStatus::Sent { frame_id: id }),
    ensures
        newest_awaiting(s, id, hi) == newest_awaiting(s, id, hi - 1),
{
}


proof fn lemma_after_status_index(s: Seq<CommandStatus>, id: u8, status: TxStatus, k: int)
    requires
        status != TxStatus::Success,
        0 <= k < s.len(),
    ensures
        after_status(s, id, status).len() == s.len(),
        after_status(s, id, status)[k] == (if s[k] == (CommandStatus::Sent { frame_id: id }) {
            CommandStatus::SentStatus { status }
        } else {
            s[k]
        }),
{
}


/// When two commands wait with the same frame id and no newer one does, a
/// success for that id settles the newer and leaves the older waiting.
pub proof fn lemma_success_settles_newer(s: Seq<CommandStatus>, id: u8, older: int, newer: int)
    requires
        0 <= older < newer < s.len(),
        s[older] == (CommandStatus::Sent { frame_id: id }),
        s[newer] == (CommandStatus::Sent { frame_id: id }),
        forall|k: int| newer < k < s.len() ==> s[k] != (CommandStatus::Sent { frame_id: id }),
    ensures
        after_status(s, id, TxStatus::Success)[newer] == (CommandStatus::SentStatus {
            status: TxStatus::Success,
        }),
        after_status(s, id, TxStatus::Success)[older] == (CommandStatus::Sent { frame_id: id }),
        forall|k: int|
            0 <= k < s.len() && k != newer ==> after_status(s, id, TxStatus::Success)[k] == s[k],
{
    lemma_newest_awaiting_is(s, id, s.len() as int, newer);
}

proof fn lemma_newest_awaiting_is(s: Seq<CommandStatus>, id: u8, hi: int, j: int)
    requires
        0 <= j < hi <= s.len(),
        s[j] == (CommandStatus::Sent { frame_id: id }),
        forall|k: int| j < k < hi ==> s[k] != (CommandStatus::Sent { frame_id: id }),
    ensures
        newest_awaiting(s, id, hi) == j,
    decreases hi,
{
    if hi - 1 != j {
        lemma_newest_awaiting_is(s, id, hi - 1, j);
    }
}

} // verus!
