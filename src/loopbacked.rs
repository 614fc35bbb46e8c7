//! Decisions of the loop-backed test-device harness: sizes and offsets,
//! backing-file names, block-device recognition, the attachment state of one
//! device and the order in which a set of devices is provisioned or unwound.
use vstd::prelude::*;

use crate::decimal::{decimal, push_decimal};

verus! {

/// Size of a sector in bytes.
pub const SECTOR_SIZE: u64 = 512;

/// One mebibyte.
pub const MIB: u64 = 1_048_576;

/// One gibibyte.
pub const GIB: u64 = 1_073_741_824;

/// Nominal size of each backing file.
pub const BACKING_FILE_SIZE: u64 = GIB;

/// Length of the region wiped at the start of each attached device.
pub const WIPE_LENGTH: u64 = MIB;

/// A quantity of bytes.
#[derive(Debug, PartialEq, Eq, Structural, Clone, Copy)]
pub struct Bytes(pub u64);

/// A quantity of sectors.
#[derive(Debug, PartialEq, Eq, Structural, Clone, Copy)]
pub struct Sectors(pub u64);

impl Bytes {
    /// The number of whole sectors in this many bytes.
    pub fn sectors(&self) -> (r: Sectors)
        ensures
            r.0 == self.0 / SECTOR_SIZE,
    {
        Sectors(self.0 / SECTOR_SIZE)
    }
}

impl Sectors {
    /// The byte count of this many sectors, or `None` where it does not fit
    /// in 64 bits.
    pub fn bytes(&self) -> (r: Option<Bytes>)
        ensures
            r == (if self.0 * SECTOR_SIZE <= u64::MAX {
                Some(Bytes((self.0 * SECTOR_SIZE) as u64))
            } else {
                None::<Bytes>
            }),
    {
        match self.0.checked_mul(SECTOR_SIZE) {
            Some(b) => Some(Bytes(b)),
            None => None,
        }
    }
}

/// The name of the backing file with the given index: `store<index>`.
pub fn backing_file_name(index: u8) -> (r: String)
    ensures
        r@ == seq!['s', 't', 'o', 'r', 'e'] + decimal(index as nat),
{
    proof {
        reveal_strlit("store");
    }
    let mut s = String::from_str("store");
    push_decimal(&mut s, index as u32);
    s
}

/// Relies on nix's `SFlag::S_IFMT`: the file-type mask of a mode, libc's
/// `S_IFMT`, 0o170000 on Linux.
#[verifier::external_body]
fn file_type_mask() -> (r: u32)
    ensures
        r == 0o170000,
{
    nix::sys::stat::SFlag::S_IFMT.bits()
}

/// Relies on nix's `SFlag::S_IFBLK`: the file type of a block device,
/// libc's `S_IFBLK`, 0o060000 on Linux.
#[verifier::external_body]
fn block_device_type() -> (r: u32)
    ensures
        r == 0o060000,
{
    nix::sys::stat::SFlag::S_IFBLK.bits()
}

/// Whether a file mode's type bits are those of a block device.
pub open spec fn is_block_device(mode: u32) -> bool {
    mode & 0o170000u32 == 0o060000u32
}

/// Given a node's mode and raw device number, the device number if the node
/// is a block device, else `None`.
pub fn block_devno(mode: u32, rdev: u64) -> (r: Option<u64>)
    ensures
        r == (if is_block_device(mode) {
            Some(rdev)
        } else {
            None::<u64>
        }),
{
    if mode & file_type_mask() == block_device_type() {
        Some(rdev)
    } else {
        None
    }
}

/// Whether one loop device is still bound to its backing file. It starts
/// bound and can be released once; releasing again changes nothing.
pub struct Binding {
    attached: bool,
}

impl View for Binding {
    type V = bool;

    closed spec fn view(&self) -> bool {
        self.attached
    }
}

impl Binding {
    /// The state of a loop device that has just been bound.
    pub fn new() -> (r: Binding)
        ensures
            r@,
    {
        Binding { attached: true }
    }

    /// Whether the device is still bound.
    pub fn is_attached(&self) -> (r: bool)
        ensures
            r == self@,
    {
        self.attached
    }

    /// Marks the device unbound, and says whether the OS binding still has to
    /// be undone: only the first release asks for that, later ones are no-ops.
    pub fn release(&mut self) -> (r: bool)
        ensures
            r == old(self)@,
            !final(self)@,
    {
        let r = self.attached;
        self.attached = false;
        r
    }
}

/// The next thing that provisioning asks of the system, for a device index.
#[derive(Debug, PartialEq, Eq, Structural, Clone, Copy)]
pub enum Action {
    /// Create the backing file of this index and extend it to full size.
    Prepare(u8),
    /// Bind a free loop device to the backing file of this index.
    Attach(u8),
    /// Wipe the start of the loop device of this index.
    Wipe(u8),
    /// Unbind the loop device of this index.
    Detach(u8),
    /// Every device is bound and wiped.
    Done,
    /// A step failed and every bound device has been unbound.
    Fail,
}

/// The model of a provisioning run: the number of devices asked for, the
/// indices of the devices bound so far in binding order, and the pending
/// action.
pub struct ProvisionState {
    pub count: nat,
    pub attached: Seq<u8>,
    pub pending: Action,
}

/// The first state of a run for `count` devices.
pub open spec fn start(count: nat) -> ProvisionState {
    ProvisionState {
        count,
        attached: Seq::empty(),
        pending: if count == 0 {
            Action::Done
        } else {
            Action::Prepare(0)
        },
    }
}

/// What comes next while unwinding: the most recently bound device is
/// unbound, and once none is left the run fails.
pub open spec fn unwind(attached: Seq<u8>) -> Action {
    if attached.len() == 0 {
        Action::Fail
    } else {
        Action::Detach(attached.last())
    }
}

/// The state after the pending action has been carried out, with `ok` telling
/// whether it succeeded.
pub open spec fn step(s: ProvisionState, ok: bool) -> ProvisionState {
    match s.pending {
        Action::Prepare(i) => if ok {
            ProvisionState { pending: Action::Attach(i), ..s }
        } else {
            ProvisionState { pending: unwind(s.attached), ..s }
        },
        Action::Attach(i) => if ok {
            ProvisionState { attached: s.attached.push(i), pending: Action::Wipe(i), ..s }
        } else {
            ProvisionState { pending: unwind(s.attached), ..s }
        },
        Action::Wipe(i) => if !ok {
            ProvisionState { pending: unwind(s.attached), ..s }
        } else if i + 1 < s.count {
            ProvisionState { pending: Action::Prepare((i + 1) as u8), ..s }
        } else {
            ProvisionState { pending: Action::Done, ..s }
        },
        Action::Detach(_) => ProvisionState {
            attached: s.attached.drop_last(),
            pending: unwind(s.attached.drop_last()),
            ..s
        },
        Action::Done => s,
        Action::Fail => s,
    }
}

/// The state after a sequence of outcomes, one per action.
pub open spec fn run(s: ProvisionState, outcomes: Seq<bool>) -> ProvisionState
    decreases outcomes.len(),
{
    if outcomes.len() == 0 {
        s
    } else {
        run(step(s, outcomes[0]), outcomes.drop_first())
    }
}

/// Whether the pending action is one of setting devices up.
pub open spec fn setting_up(a: Action) -> bool {
    a is Prepare || a is Attach || a is Wipe
}

/// The states that a run reaches: devices are bound in index order, a device
/// is only ever unbound last first, the run is done only with every device
/// bound, and it fails only with none left bound.
pub open spec fn well_formed(s: ProvisionState) -> bool {
    let k = s.attached.len();
    &&& s.count <= u8::MAX
    &&& forall|j: int| 0 <= j < k ==> s.attached[j] == j
    &&& match s.pending {
        Action::Prepare(i) => i == k && i < s.count,
        Action::Attach(i) => i == k && i < s.count,
        Action::Wipe(i) => i + 1 == k && i < s.count,
        Action::Detach(i) => k > 0 && i == k - 1,
        Action::Done => k == s.count,
        Action::Fail => k == 0,
    }
}

/// Every run starts well formed and every step keeps it so.
pub proof fn lemma_step_well_formed(s: ProvisionState, ok: bool)
    requires
        well_formed(s),
    ensures
        well_formed(step(s, ok)),
{
    let t = step(s, ok);
    match s.pending {
        Action::Detach(_) => {
            assert(forall|j: int|
                0 <= j < t.attached.len() ==> t.attached[j] == s.attached[j]);
        },
        Action::Attach(i) => {
            if ok {
                assert(forall|j: int|
                    0 <= j < s.attached.len() ==> t.attached[j] == s.attached[j]);
            }
        },
        _ => {},
    }
}

/// A run that has started well formed stays well formed.
pub proof fn lemma_run_well_formed(s: ProvisionState, outcomes: Seq<bool>)
    requires
        well_formed(s),
    ensures
        well_formed(run(s, outcomes)),
    decreases outcomes.len(),
{
    if outcomes.len() > 0 {
        lemma_step_well_formed(s, outcomes[0]);
        lemma_run_well_formed(step(s, outcomes[0]), outcomes.drop_first());
    }
}

/// Once a setup action fails, the devices bound so far are unbound one by
/// one, last bound first, whatever each unbinding reports; after as many
/// further steps as there were bound devices the run fails with none bound.
pub proof fn lemma_failure_unwinds(s: ProvisionState, outcomes: Seq<bool>)
    requires
        well_formed(s),
        setting_up(s.pending),
        outcomes.len() <= s.attached.len(),
    ensures
        run(step(s, false), outcomes).attached
            == s.attached.take(s.attached.len() - outcomes.len()),
        run(step(s, false), outcomes).pending
            == unwind(s.attached.take(s.attached.len() - outcomes.len())),
        outcomes.len() == s.attached.len() ==> run(step(s, false), outcomes).pending
            == Action::Fail,
    decreases outcomes.len(),
{
    let k = s.attached.len();
    if outcomes.len() == 0 {
        assert(s.attached.take(k as int) =~= s.attached);
    } else {
        let pre = outcomes.take(outcomes.len() - 1);
        lemma_failure_unwinds(s, pre);
        lemma_run_split(step(s, false), outcomes);
        let m = run(step(s, false), pre);
        assert(m.attached.drop_last() =~= s.attached.take(k - outcomes.len()));
    }
}

/// Running a sequence of outcomes is running all but the last, then one step
/// with the last.
pub proof fn lemma_run_split(s: ProvisionState, outcomes: Seq<bool>)
    requires
        outcomes.len() > 0,
    ensures
        run(s, outcomes) == step(
            run(s, outcomes.take(outcomes.len() - 1)),
            outcomes.last(),
        ),
    decreases outcomes.len(),
{
    if outcomes.len() > 1 {
        let rest = outcomes.drop_first();
        let pre = outcomes.take(outcomes.len() - 1);
        lemma_run_split(step(s, outcomes[0]), rest);
        assert(rest.take(rest.len() - 1) =~= pre.drop_first());
        assert(pre[0] == outcomes[0]);
        assert(rest.last() == outcomes.last());
        assert(run(s, outcomes) == run(step(s, outcomes[0]), rest));
        assert(run(s, pre) == run(step(s, pre[0]), pre.drop_first()));
    } else {
        let t = step(s, outcomes[0]);
        assert(outcomes.drop_first() =~= Seq::<bool>::empty());
        assert(outcomes.take(0) =~= Seq::<bool>::empty());
        assert(run(t, Seq::<bool>::empty()) == t);
        assert(run(s, outcomes) == run(t, outcomes.drop_first()));
        assert(run(s, Seq::<bool>::empty()) == s);
    }
}

/// Running one sequence of outcomes and then another is running the two
/// joined.
pub proof fn lemma_run_append(s: ProvisionState, a: Seq<bool>, b: Seq<bool>)
    ensures
        run(s, a + b) == run(run(s, a), b),
    decreases a.len(),
{
    if a.len() > 0 {
        assert((a + b).drop_first() =~= a.drop_first() + b);
        assert((a + b)[0] == a[0]);
        lemma_run_append(step(s, a[0]), a.drop_first(), b);
    } else {
        assert(a + b =~= b);
    }
}

/// `n` successful outcomes.
pub open spec fn all_ok(n: nat) -> Seq<bool> {
    Seq::new(n, |_j: int| true)
}

/// The indices `0..n`, in order.
pub open spec fn first_indices(n: nat) -> Seq<u8> {
    Seq::new(n, |j: int| j as u8)
}

/// After `3 * i` successful actions, the first `i` devices are bound in
/// index order and the next one is being prepared, or the run is done.
proof fn lemma_success_prefix(count: nat, i: nat)
    requires
        count <= u8::MAX,
        i <= count,
    ensures
        run(start(count), all_ok(3 * i)).count == count,
        run(start(count), all_ok(3 * i)).attached == first_indices(i),
        run(start(count), all_ok(3 * i)).pending == (if i < count {
            Action::Prepare(i as u8)
        } else {
            Action::Done
        }),
    decreases i,
{
    if i == 0 {
        assert(all_ok(0) =~= Seq::<bool>::empty());
        assert(first_indices(0) =~= Seq::<u8>::empty());
        assert(run(start(count), Seq::<bool>::empty()) == start(count));
    } else {
        let k = (i - 1) as nat;
        lemma_success_prefix(count, k);
        assert(all_ok(3 * i) =~= all_ok(3 * k) + all_ok(3));
        lemma_run_append(start(count), all_ok(3 * k), all_ok(3));
        let s0 = run(start(count), all_ok(3 * k));
        assert(k < count && (k as u8) as nat == k);
        let s1 = step(s0, true);
        let s2 = step(s1, true);
        let s3 = step(s2, true);
        let t = all_ok(3);
        assert(t.drop_first() =~= all_ok(2));
        assert(all_ok(2).drop_first() =~= all_ok(1));
        assert(all_ok(1).drop_first() =~= Seq::<bool>::empty());
        assert(t[0] && all_ok(2)[0] && all_ok(1)[0]);
        assert(run(s0, t) == run(s1, all_ok(2)));
        assert(run(s1, all_ok(2)) == run(s2, all_ok(1)));
        assert(run(s2, all_ok(1)) == run(s3, Seq::<bool>::empty()));
        assert(run(s0, t) == s3);
        assert(run(start(count), all_ok(3 * i)) == s3);
        assert((k as u8) + 1 == i);
        if i < count {
            assert(((k as u8) + 1) as u8 == i as u8);
        }
        assert(s3.attached =~= first_indices(i));
    }
}

/// When every action succeeds, a run for `count` devices binds the devices
/// `0..count` in index order and is done after three actions per device.
pub proof fn lemma_success_binds_all(count: nat)
    requires
        count <= u8::MAX,
    ensures
        run(start(count), all_ok(3 * count)).pending == Action::Done,
        run(start(count), all_ok(3 * count)).attached == first_indices(count),
{
    lemma_success_prefix(count, count);
}

/// The decisions of one provisioning run: which action comes next, and the
/// devices bound so far.
pub struct Provisioner {
    count: u8,
    attached: Vec<u8>,
    pending: Action,
}

impl View for Provisioner {
    type V = ProvisionState;

    closed spec fn view(&self) -> ProvisionState {
        ProvisionState { count: self.count as nat, attached: self.attached@, pending: self.pending }
    }
}

impl Provisioner {
    /// A run that will provision `count` devices.
    pub fn new(count: u8) -> (r: Provisioner)
        ensures
            r@ == start(count as nat),
            well_formed(r@),
    {
        let pending = if count == 0 {
            Action::Done
        } else {
            Action::Prepare(0)
        };
        let r = Provisioner { count, attached: Vec::new(), pending };
        assert(r@.attached =~= Seq::<u8>::empty());
        r
    }

    /// The action to carry out next.
    pub fn action(&self) -> (r: Action)
        ensures
            r == self@.pending,
    {
        self.pending
    }

    /// Whether the run is over, by success or by failure.
    pub fn is_finished(&self) -> (r: bool)
        ensures
            r == (self@.pending is Done || self@.pending is Fail),
    {
        match self.pending {
            Action::Done | Action::Fail => true,
            _ => false,
        }
    }

    /// Records the outcome of the pending action and moves to the next one.
    pub fn advance(&mut self, ok: bool)
        requires
            well_formed(old(self)@),
        ensures
            final(self)@ == step(old(self)@, ok),
            well_formed(final(self)@),
    {
        proof {
            lemma_step_well_formed(self@, ok);
        }
        let ghost s = self@;
        match self.pending {
            Action::Prepare(i) => {
                self.pending = if ok {
                    Action::Attach(i)
                } else {
                    self.unwind_next()
                };
            },
            Action::Attach(i) => {
                if ok {
                    self.attached.push(i);
                    self.pending = Action::Wipe(i);
                } else {
                    self.pending = self.unwind_next();
                }
            },
            Action::Wipe(i) => {
                self.pending = if !ok {
                    self.unwind_next()
                } else if i < self.count - 1 {
                    Action::Prepare(i + 1)
                } else {
                    Action::Done
                };
            },
            Action::Detach(_) => {
                self.attached.pop();
                self.pending = self.unwind_next();
            },
            Action::Done | Action::Fail => {},
        }
        assert(self@ =~= step(s, ok));
    }

    fn unwind_next(&self) -> (r: Action)
        ensures
            r == unwind(self@.attached),
    {
        if self.attached.len() == 0 {
            Action::Fail
        } else {
            Action::Detach(self.attached[self.attached.len() - 1])
        }
    }
}

} // verus!
