//! The USB sequence that puts a device into its bootloader, and the choice of
//! the devices to try.
use vstd::prelude::*;

verus! {

/// Vendor id of the device that the sequence is meant for.
pub const VENDOR_ID: u16 = 0x10c4;

/// Product id of the device that the sequence is meant for.
pub const PRODUCT_ID: u16 = 0xea60;

/// Request type of every transfer: vendor request, to the interface, host to device.
pub const REQUEST_TYPE: u8 = 0x41;

/// Vendor request number of every transfer.
pub const REQUEST: u8 = 0xff;

/// `value` of every transfer.
pub const REQUEST_VALUE: u16 = 0x37e1;

/// `index` of the first transfer: reset asserted.
pub const INDEX_RESET: u16 = 0x0003;

/// `index` of the second transfer: reset released.
pub const INDEX_RELEASE_RESET: u16 = 0x0103;

/// `index` of the third transfer: mode pin released.
pub const INDEX_RELEASE_MODE: u16 = 0x0303;

/// Timeout of each transfer, in milliseconds.
pub const TRANSFER_TIMEOUT_MS: u64 = 100;

/// Wait after the first transfer, in milliseconds.
pub const SHORT_DELAY_MS: u64 = 100;

/// Wait after the second transfer, in milliseconds.
pub const LONG_DELAY_MS: u64 = 1000;

/// Number of commands of the full sequence.
pub const SEQUENCE_LEN: usize = 5;

/// A zero-length control transfer from host to device.
#[derive(Clone, Copy, Debug, PartialEq, Eq, Structural)]
pub struct ControlTransfer {
    pub request_type: u8,
    pub request: u8,
    pub value: u16,
    pub index: u16,
    pub timeout_ms: u64,
}

/// One thing for the caller to do.
#[derive(Clone, Copy, Debug, PartialEq, Eq, Structural)]
pub enum Command {
    /// Issue this transfer and report whether it succeeded.
    Transfer(ControlTransfer),
    /// Wait this many milliseconds.
    Sleep(u64),
    /// The whole sequence went through.
    Done,
    /// A transfer failed: stop, issue nothing more.
    Abort,
}

/// The transfer with the given `index` and the fixed request fields.
pub open spec fn transfer_with(index: u16) -> ControlTransfer {
    ControlTransfer {
        request_type: REQUEST_TYPE,
        request: REQUEST,
        value: REQUEST_VALUE,
        index,
        timeout_ms: TRANSFER_TIMEOUT_MS,
    }
}

/// The full sequence, in order.
pub open spec fn plan() -> Seq<Command> {
    seq![
        Command::Transfer(transfer_with(INDEX_RESET)),
        Command::Sleep(SHORT_DELAY_MS),
        Command::Transfer(transfer_with(INDEX_RELEASE_RESET)),
        Command::Sleep(LONG_DELAY_MS),
        Command::Transfer(transfer_with(INDEX_RELEASE_MODE)),
    ]
}

/// Where the sequence stands.
#[derive(Debug)]
pub struct Trigger {
    /// Number of commands of [`plan`] handed out so far.
    pub pos: usize,
    /// A transfer failed.
    pub aborted: bool,
}

impl Trigger {
    pub open spec fn wf(&self) -> bool {
        self.pos <= SEQUENCE_LEN
    }

    /// The command after `t` when the last one `failed`.
    pub open spec fn next_command(t: Trigger, failed: bool) -> Command {
        if t.aborted || failed {
            Command::Abort
        } else if t.pos < SEQUENCE_LEN {
            plan()[t.pos as int]
        } else {
            Command::Done
        }
    }

    /// The state after handing out the command that follows `t`.
    pub open spec fn advanced(t: Trigger, failed: bool) -> Trigger {
        if t.aborted || failed {
            Trigger { pos: t.pos, aborted: true }
        } else if t.pos < SEQUENCE_LEN {
            Trigger { pos: (t.pos + 1) as usize, aborted: false }
        } else {
            t
        }
    }

    /// A sequence that has not started.
    pub fn new() -> (r: Trigger)
        ensures
            r.wf(),
            r.pos == 0,
            !r.aborted,
    {
        Trigger { pos: 0, aborted: false }
    }

    /// Hands out the next command. `failed` says whether the last command was a
    /// transfer that failed (false before the first command).
    pub fn next(&mut self, failed: bool) -> (c: Command)
        requires
            old(self).wf(),
        ensures
            final(self).wf(),
            c == Self::next_command(*old(self), failed),
            *final(self) == Self::advanced(*old(self), failed),
    {
        if self.aborted || failed {
            self.aborted = true;
            return Command::Abort;
        }
        if self.pos >= SEQUENCE_LEN {
            return Command::Done;
        }
        let c = command_at(self.pos);
        self.pos = self.pos + 1;
        c
    }
}

/// The command at position `i` of the full sequence.
fn command_at(i: usize) -> (c: Command)
    requires
        i < SEQUENCE_LEN,
    ensures
        c == plan()[i as int],
{
    let index = if i == 0 {
        INDEX_RESET
    } else if i == 2 {
        INDEX_RELEASE_RESET
    } else {
        INDEX_RELEASE_MODE
    };
    if i == 1 {
        Command::Sleep(SHORT_DELAY_MS)
    } else if i == 3 {
        Command::Sleep(LONG_DELAY_MS)
    } else {
        Command::Transfer(
            ControlTransfer {
                request_type: REQUEST_TYPE,
                request: REQUEST,
                value: REQUEST_VALUE,
                index,
                timeout_ms: TRANSFER_TIMEOUT_MS,
            },
        )
    }
}

/// A descriptor that was read and names `vid`:`pid`.
pub open spec fn is_match(d: Option<(u16, u16)>, vid: u16, pid: u16) -> bool {
    d == Some((vid, pid))
}

/// The scan over the USB devices for the one to open: devices are taken in
/// the order listed, each one that matches is tried, and the scan ends with
/// the first that opens.
#[derive(Clone, Copy, Debug, PartialEq, Eq, Structural)]
pub struct DeviceScan {
    pub vid: u16,
    pub pid: u16,
    /// A device was opened.
    pub found: bool,
}

impl DeviceScan {
    /// A scan for `vid`:`pid` that has opened nothing yet.
    pub fn new(vid: u16, pid: u16) -> (r: DeviceScan)
        ensures
            r == (DeviceScan { vid, pid, found: false }),
    {
        DeviceScan { vid, pid, found: false }
    }

    /// Whether to try to open the next device, whose descriptor is `desc`
    /// (`None` where it could not be read).
    pub fn should_open(&self, desc: Option<(u16, u16)>) -> (r: bool)
        ensures
            r == (!self.found && is_match(desc, self.vid, self.pid)),
    {
        if self.found {
            return false;
        }
        match desc {
            Some((v, p)) => v == self.vid && p == self.pid,
            None => false,
        }
    }

    /// Records whether the device that was tried opened.
    pub fn opened(&mut self, ok: bool)
        ensures
            *final(self) == (DeviceScan { found: old(self).found || ok, ..*old(self) }),
    {
        self.found = self.found || ok;
    }

    /// The scan is over: a device was opened.
    pub fn finished(&self) -> (r: bool)
        ensures
            r == self.found,
    {
        self.found
    }
}

/// Whether a scan `s` has opened a device after the first `n` devices, whose
/// descriptors are `descs` and where trying to open device `i` gives `oks[i]`.
pub open spec fn found_after(
    s: DeviceScan,
    descs: Seq<Option<(u16, u16)>>,
    oks: Seq<bool>,
    n: int,
) -> bool
    decreases n,
{
    if n <= 0 {
        s.found
    } else {
        let before = found_after(s, descs, oks, n - 1);
        let tried = !before && is_match(descs[n - 1], s.vid, s.pid);
        before || (tried && oks[n - 1])
    }
}

/// Whether the scan `s` tries to open device `i`, as
/// [`DeviceScan::should_open`] decides after the devices before it.
pub open spec fn tried_at(
    s: DeviceScan,
    descs: Seq<Option<(u16, u16)>>,
    oks: Seq<bool>,
    i: int,
) -> bool {
    !found_after(s, descs, oks, i) && is_match(descs[i], s.vid, s.pid)
}

/// A fresh scan tries exactly the matching devices up to the first that
/// opens, and none after it; it has opened a device exactly when some matching
/// device opened.
pub proof fn lemma_scan_stops_at_first_open(
    vid: u16,
    pid: u16,
    descs: Seq<Option<(u16, u16)>>,
    oks: Seq<bool>,
    n: int,
)
    requires
        0 <= n <= descs.len(),
        descs.len() == oks.len(),
    ensures
        found_after(DeviceScan { vid, pid, found: false }, descs, oks, n) <==> exists|j: int|
            0 <= j < n && is_match(descs[j], vid, pid) && oks[j],
        forall|i: int|
            0 <= i < n ==> (#[trigger] tried_at(DeviceScan { vid, pid, found: false }, descs, oks, i)
                <==> is_match(descs[i], vid, pid) && forall|j: int|
                0 <= j < i ==> !(is_match(descs[j], vid, pid) && oks[j])),
    decreases n,
{
    let s = DeviceScan { vid, pid, found: false };
    if n > 0 {
        lemma_scan_stops_at_first_open(vid, pid, descs, oks, n - 1);
        if found_after(s, descs, oks, n) {
            if !found_after(s, descs, oks, n - 1) {
                assert(is_match(descs[n - 1], vid, pid) && oks[n - 1]);
            }
        }
        assert forall|i: int| 0 <= i < n implies (#[trigger] tried_at(s, descs, oks, i)
            <==> is_match(descs[i], vid, pid) && forall|j: int|
            0 <= j < i ==> !(is_match(descs[j], vid, pid) && oks[j])) by {
            if i == n - 1 {
                if !found_after(s, descs, oks, i) {
                    assert forall|j: int| 0 <= j < i implies !(is_match(descs[j], vid, pid)
                        && oks[j]) by {}
                }
            }
        }
    }
}

/// The state of a trigger `t` after the calls of [`Trigger::next`] whose
/// arguments are `fs`, in order.
pub open spec fn after_calls(t: Trigger, fs: Seq<bool>) -> Trigger
    decreases fs.len(),
{
    if fs.len() == 0 {
        t
    } else {
        Trigger::advanced(after_calls(t, fs.drop_last()), fs.last())
    }
}

/// The commands handed out by the calls of [`Trigger::next`] on `t` whose
/// arguments are `fs`, in order.
pub open spec fn issued(t: Trigger, fs: Seq<bool>) -> Seq<Command>
    decreases fs.len(),
{
    if fs.len() == 0 {
        Seq::empty()
    } else {
        issued(t, fs.drop_last()).push(
            Trigger::next_command(after_calls(t, fs.drop_last()), fs.last()),
        )
    }
}

/// The sequence holds exactly three transfers, with request type 0x41 and
/// request 0xff, and (value, index) pairs (0x37e1, 0x0003), (0x37e1, 0x0103),
/// (0x37e1, 0x0303) in that order; a wait of 100 ms follows the first and one
/// of 1000 ms the second.
pub proof fn lemma_plan_shape()
    ensures
        plan().len() == SEQUENCE_LEN,
        plan()[0] == Command::Transfer(transfer_with(0x0003)),
        plan()[1] == Command::Sleep(100),
        plan()[2] == Command::Transfer(transfer_with(0x0103)),
        plan()[3] == Command::Sleep(1000),
        plan()[4] == Command::Transfer(transfer_with(0x0303)),
        forall|i: u16| #[trigger] transfer_with(i).request_type == 0x41 && transfer_with(i).request
            == 0xff && transfer_with(i).value == 0x37e1,
{
}

/// While no transfer fails, a fresh trigger hands out the full sequence in
/// order, and `Done` after it.
pub proof fn lemma_success_follows_plan(fs: Seq<bool>)
    requires
        forall|i: int| 0 <= i < fs.len() ==> !fs[i],
    ensures
        issued(Trigger { pos: 0, aborted: false }, fs).len() == fs.len(),
        after_calls(Trigger { pos: 0, aborted: false }, fs) == (Trigger {
            pos: if fs.len() < SEQUENCE_LEN { fs.len() as usize } else { SEQUENCE_LEN },
            aborted: false,
        }),
        forall|j: int|
            0 <= j < fs.len() ==> #[trigger] issued(Trigger { pos: 0, aborted: false }, fs)[j] == if j
                < SEQUENCE_LEN {
                plan()[j]
            } else {
                Command::Done
            },
    decreases fs.len(),
{
    if fs.len() > 0 {
        lemma_success_follows_plan(fs.drop_last());
    }
}

/// Once a transfer is reported failed, every later call hands out `Abort`:
/// no further transfer is issued.
pub proof fn lemma_failure_aborts(t: Trigger, fs: Seq<bool>, k: int)
    requires
        0 <= k < fs.len(),
        fs[k],
    ensures
        issued(t, fs).len() == fs.len(),
        forall|j: int| 0 <= j < k ==> #[trigger] issued(t, fs)[j] == issued(t, fs.subrange(0, k))[j],
        forall|j: int| k <= j < fs.len() ==> #[trigger] issued(t, fs)[j] == Command::Abort,
        after_calls(t, fs).aborted,
    decreases fs.len(),
{
    lemma_issued_len(t, fs);
    if fs.len() - 1 == k {
        assert(fs.drop_last() == fs.subrange(0, k));
    } else {
        lemma_failure_aborts(t, fs.drop_last(), k);
        assert(fs.drop_last().subrange(0, k) == fs.subrange(0, k));
    }
}

proof fn lemma_issued_len(t: Trigger, fs: Seq<bool>)
    ensures
        issued(t, fs).len() == fs.len(),
    decreases fs.len(),
{
    if fs.len() > 0 {
        lemma_issued_len(t, fs.drop_last());
    }
}

} // verus!
