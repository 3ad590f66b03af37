//! What the running kernel's io_uring can do, and how a ring is set up with it.

use vstd::prelude::*;
use vstd::string::*;

verus! {

/// The setup flags that the runtime uses.
pub const SETUP_CQSIZE: u32 = 8;

pub const SETUP_SUBMIT_ALL: u32 = 128;

pub const SETUP_TASKRUN_FLAG: u32 = 512;

pub const SETUP_SINGLE_ISSUER: u32 = 4096;

pub const SETUP_DEFER_TASKRUN: u32 = 8192;

pub const SETUP_NO_SQARRAY: u32 = 65536;

/// The depth of the submission queue.
pub const SQ_ENTRIES: u32 = 256;

/// The depth of the completion queue, where it can be chosen.
pub const CQ_ENTRIES: u32 = 1024;

/// The size of the table of direct descriptors.
pub const FIXED_FILE_SLOTS: u32 = 4096;

/// What the kernel's io_uring can do.
#[derive(Clone, Copy, Debug, PartialEq, Eq, Structural)]
pub struct KernelCaps {
    pub single_issuer: bool,
    pub defer_taskrun: bool,
    pub taskrun_flag: bool,
    pub submit_all: bool,
    pub cqsize: bool,
    pub no_sqarray: bool,
    pub op_accept: bool,
    pub op_connect: bool,
    pub op_recv: bool,
    pub op_send: bool,
    pub op_read: bool,
    pub op_write: bool,
    pub op_close: bool,
    pub op_timeout: bool,
    pub op_link_timeout: bool,
    pub op_async_cancel: bool,
    pub op_socket: bool,
    pub op_msg_ring: bool,
    pub sparse_files: bool,
    pub register_ring_fd: bool,
}

impl Default for KernelCaps {
    /// Nothing can be done.
    fn default() -> (r: Self)
        ensures
            r == no_caps(),
    {
        KernelCaps {
            single_issuer: false,
            defer_taskrun: false,
            taskrun_flag: false,
            submit_all: false,
            cqsize: false,
            no_sqarray: false,
            op_accept: false,
            op_connect: false,
            op_recv: false,
            op_send: false,
            op_read: false,
            op_write: false,
            op_close: false,
            op_timeout: false,
            op_link_timeout: false,
            op_async_cancel: false,
            op_socket: false,
            op_msg_ring: false,
            sparse_files: false,
            register_ring_fd: false,
        }
    }
}

/// What a kernel can do that can do nothing.
pub open spec fn no_caps() -> KernelCaps {
    KernelCaps {
        single_issuer: false,
        defer_taskrun: false,
        taskrun_flag: false,
        submit_all: false,
        cqsize: false,
        no_sqarray: false,
        op_accept: false,
        op_connect: false,
        op_recv: false,
        op_send: false,
        op_read: false,
        op_write: false,
        op_close: false,
        op_timeout: false,
        op_link_timeout: false,
        op_async_cancel: false,
        op_socket: false,
        op_msg_ring: false,
        sparse_files: false,
        register_ring_fd: false,
    }
}

/// A ring to be tried: its flags, and the depth of its completion queue where that is chosen.
#[derive(Clone, Copy, Debug, PartialEq, Eq, Structural)]
pub struct SetupParams {
    pub flags: u32,
    pub cq_entries: u32,
}

/// Which rings could be set up.
#[derive(Clone, Copy, Debug, PartialEq, Eq, Structural)]
pub struct SetupProbe {
    pub base: bool,
    pub single_issuer: bool,
    pub submit_all: bool,
    pub no_sqarray: bool,
    pub cqsize: bool,
    pub defer_taskrun: bool,
    pub taskrun_flag: bool,
}

/// Which operations the kernel knows.
#[derive(Clone, Copy, Debug, PartialEq, Eq, Structural)]
pub struct OpcodeProbe {
    pub accept: bool,
    pub connect: bool,
    pub recv: bool,
    pub send: bool,
    pub read: bool,
    pub write: bool,
    pub close: bool,
    pub timeout: bool,
    pub link_timeout: bool,
    pub async_cancel: bool,
    pub socket: bool,
    pub msg_ring: bool,
}

/// What registering on a throwaway ring returned.
#[derive(Clone, Copy, Debug, PartialEq, Eq, Structural)]
pub struct RegistrationProbe {
    pub sparse_files: i32,
    pub ring_fd: i32,
}

/// The rings that tell the capabilities apart, in the order of the fields of `SetupProbe`. A
/// flag that is only valid along with others is tried along with them.
pub open spec fn probe_list() -> Seq<SetupParams> {
    seq![
        SetupParams { flags: 0, cq_entries: 0 },
        SetupParams { flags: SETUP_SINGLE_ISSUER, cq_entries: 0 },
        SetupParams { flags: SETUP_SUBMIT_ALL, cq_entries: 0 },
        SetupParams { flags: SETUP_NO_SQARRAY, cq_entries: 0 },
        SetupParams { flags: SETUP_CQSIZE, cq_entries: 64 },
        SetupParams { flags: SETUP_SINGLE_ISSUER | SETUP_DEFER_TASKRUN, cq_entries: 0 },
        SetupParams {
            flags: SETUP_SINGLE_ISSUER | SETUP_DEFER_TASKRUN | SETUP_TASKRUN_FLAG,
            cq_entries: 0,
        },
    ]
}

/// The rings that tell the capabilities apart.
pub fn probe_setups() -> (v: Vec<SetupParams>)
    ensures
        v@ == probe_list(),
{
    let mut v: Vec<SetupParams> = Vec::new();
    v.push(SetupParams { flags: 0, cq_entries: 0 });
    v.push(SetupParams { flags: SETUP_SINGLE_ISSUER, cq_entries: 0 });
    v.push(SetupParams { flags: SETUP_SUBMIT_ALL, cq_entries: 0 });
    v.push(SetupParams { flags: SETUP_NO_SQARRAY, cq_entries: 0 });
    v.push(SetupParams { flags: SETUP_CQSIZE, cq_entries: 64 });
    v.push(SetupParams { flags: SETUP_SINGLE_ISSUER | SETUP_DEFER_TASKRUN, cq_entries: 0 });
    v.push(
        SetupParams {
            flags: SETUP_SINGLE_ISSUER | SETUP_DEFER_TASKRUN | SETUP_TASKRUN_FLAG,
            cq_entries: 0,
        },
    );
    proof {
        assert(v@ =~= probe_list());
    }
    v
}

/// One bit of a set of flags.
pub open spec fn flag_if(on: bool, flag: u32) -> u32 {
    if on {
        flag
    } else {
        0
    }
}

impl KernelCaps {
    /// The capabilities that the probes show; nothing where no ring can be set up at all.
    pub open spec fn shown_by(
        setups: SetupProbe,
        opcodes: Option<OpcodeProbe>,
        registration: Option<RegistrationProbe>,
    ) -> Option<KernelCaps> {
        if !setups.base {
            None
        } else {
            Some(
                KernelCaps {
                    single_issuer: setups.single_issuer,
                    defer_taskrun: setups.defer_taskrun,
                    taskrun_flag: setups.taskrun_flag,
                    submit_all: setups.submit_all,
                    cqsize: setups.cqsize,
                    no_sqarray: setups.no_sqarray,
                    op_accept: opcodes matches Some(o) && o.accept,
                    op_connect: opcodes matches Some(o) && o.connect,
                    op_recv: opcodes matches Some(o) && o.recv,
                    op_send: opcodes matches Some(o) && o.send,
                    op_read: opcodes matches Some(o) && o.read,
                    op_write: opcodes matches Some(o) && o.write,
                    op_close: opcodes matches Some(o) && o.close,
                    op_timeout: opcodes matches Some(o) && o.timeout,
                    op_link_timeout: opcodes matches Some(o) && o.link_timeout,
                    op_async_cancel: opcodes matches Some(o) && o.async_cancel,
                    op_socket: opcodes matches Some(o) && o.socket,
                    op_msg_ring: opcodes matches Some(o) && o.msg_ring,
                    sparse_files: registration matches Some(r) && r.sparse_files == 0,
                    register_ring_fd: registration matches Some(r) && r.ring_fd >= 0,
                },
            )
        }
    }

    /// The capabilities that the probes show; nothing where no ring can be set up at all.
    pub fn probe(
        setups: SetupProbe,
        opcodes: Option<OpcodeProbe>,
        registration: Option<RegistrationProbe>,
    ) -> (r: Option<KernelCaps>)
        ensures
            r == KernelCaps::shown_by(setups, opcodes, registration),
    {
        if !setups.base {
            return None;
        }
        let o = match opcodes {
            Some(o) => o,
            None => OpcodeProbe {
                accept: false,
                connect: false,
                recv: false,
                send: false,
                read: false,
                write: false,
                close: false,
                timeout: false,
                link_timeout: false,
                async_cancel: false,
                socket: false,
                msg_ring: false,
            },
        };
        let (sparse_files, register_ring_fd) = match registration {
            Some(r) => (r.sparse_files == 0, r.ring_fd >= 0),
            None => (false, false),
        };
        Some(
            KernelCaps {
                single_issuer: setups.single_issuer,
                defer_taskrun: setups.defer_taskrun,
                taskrun_flag: setups.taskrun_flag,
                submit_all: setups.submit_all,
                cqsize: setups.cqsize,
                no_sqarray: setups.no_sqarray,
                op_accept: o.accept,
                op_connect: o.connect,
                op_recv: o.recv,
                op_send: o.send,
                op_read: o.read,
                op_write: o.write,
                op_close: o.close,
                op_timeout: o.timeout,
                op_link_timeout: o.link_timeout,
                op_async_cancel: o.async_cancel,
                op_socket: o.socket,
                op_msg_ring: o.msg_ring,
                sparse_files,
                register_ring_fd,
            },
        )
    }

    /// Whether sockets can live as direct descriptors.
    pub fn direct_descriptors_supported(&self) -> (r: bool)
        ensures
            r == (self.sparse_files && self.op_accept && self.op_socket),
    {
        self.sparse_files && self.op_accept && self.op_socket
    }

    /// The flags that the runtime prefers, as far as the kernel has them.
    pub open spec fn preferred(&self) -> u32 {
        let deferred = self.single_issuer && self.defer_taskrun;
        flag_if(self.single_issuer, SETUP_SINGLE_ISSUER) | flag_if(deferred, SETUP_DEFER_TASKRUN)
            | flag_if(deferred && self.taskrun_flag, SETUP_TASKRUN_FLAG) | flag_if(
            self.submit_all,
            SETUP_SUBMIT_ALL,
        ) | flag_if(self.no_sqarray, SETUP_NO_SQARRAY)
    }

    /// The flags that the runtime prefers, as far as the kernel has them.
    pub fn preferred_setup_flags(&self) -> (r: u32)
        ensures
            r == self.preferred(),
    {
        let deferred = self.single_issuer && self.defer_taskrun;
        let issuer: u32 = if self.single_issuer {
            SETUP_SINGLE_ISSUER
        } else {
            0
        };
        let defer: u32 = if deferred {
            SETUP_DEFER_TASKRUN
        } else {
            0
        };
        let taskrun: u32 = if deferred && self.taskrun_flag {
            SETUP_TASKRUN_FLAG
        } else {
            0
        };
        let all: u32 = if self.submit_all {
            SETUP_SUBMIT_ALL
        } else {
            0
        };
        let array: u32 = if self.no_sqarray {
            SETUP_NO_SQARRAY
        } else {
            0
        };
        issuer | defer | taskrun | all | array
    }

    /// The operations that the runtime cannot do without.
    pub open spec fn has_mandatory(&self) -> bool {
        self.op_accept && self.op_connect && self.op_recv && self.op_send && self.op_read
            && self.op_write && self.op_close && self.op_timeout && self.op_async_cancel
    }

    /// Whether the operations are there that the runtime cannot do without.
    pub fn mandatory_opcodes_present(&self) -> (r: bool)
        ensures
            r == self.has_mandatory(),
    {
        self.op_accept && self.op_connect && self.op_recv && self.op_send && self.op_read
            && self.op_write && self.op_close && self.op_timeout && self.op_async_cancel
    }

    /// The capabilities with what stands before each.
    pub open spec fn labelled(&self) -> Seq<(Seq<char>, bool)> {
        seq![
            ("io_uring caps: setup[single_issuer="@, self.single_issuer),
            (" defer_taskrun="@, self.defer_taskrun),
            (" taskrun_flag="@, self.taskrun_flag),
            (" submit_all="@, self.submit_all),
            (" cqsize="@, self.cqsize),
            (" no_sqarray="@, self.no_sqarray),
            ("] ops[accept="@, self.op_accept),
            (" connect="@, self.op_connect),
            (" recv="@, self.op_recv),
            (" send="@, self.op_send),
            (" read="@, self.op_read),
            (" write="@, self.op_write),
            (" close="@, self.op_close),
            (" timeout="@, self.op_timeout),
            (" link_timeout="@, self.op_link_timeout),
            (" async_cancel="@, self.op_async_cancel),
            (" socket="@, self.op_socket),
            (" msg_ring="@, self.op_msg_ring),
            ("] reg[sparse_files="@, self.sparse_files),
            (" register_ring_fd="@, self.register_ring_fd),
        ]
    }

    /// The capabilities in one line.
    pub open spec fn text(&self) -> Seq<char> {
        flags_line(self.labelled()) + "]"@
    }

    fn labels(&self) -> (v: Vec<(&'static str, bool)>)
        ensures
            v@.map_values(|p: (&'static str, bool)| (p.0@, p.1)) == self.labelled(),
    {
        let mut v: Vec<(&'static str, bool)> = Vec::new();
        v.push(("io_uring caps: setup[single_issuer=", self.single_issuer));
        v.push((" defer_taskrun=", self.defer_taskrun));
        v.push((" taskrun_flag=", self.taskrun_flag));
        v.push((" submit_all=", self.submit_all));
        v.push((" cqsize=", self.cqsize));
        v.push((" no_sqarray=", self.no_sqarray));
        v.push(("] ops[accept=", self.op_accept));
        v.push((" connect=", self.op_connect));
        v.push((" recv=", self.op_recv));
        v.push((" send=", self.op_send));
        v.push((" read=", self.op_read));
        v.push((" write=", self.op_write));
        v.push((" close=", self.op_close));
        v.push((" timeout=", self.op_timeout));
        v.push((" link_timeout=", self.op_link_timeout));
        v.push((" async_cancel=", self.op_async_cancel));
        v.push((" socket=", self.op_socket));
        v.push((" msg_ring=", self.op_msg_ring));
        v.push(("] reg[sparse_files=", self.sparse_files));
        v.push((" register_ring_fd=", self.register_ring_fd));
        proof {
            assert(v@.map_values(|p: (&'static str, bool)| (p.0@, p.1)) =~= self.labelled());
        }
        v
    }

    /// The capabilities in one line.
    pub fn to_text(&self) -> (s: String)
        ensures
            s@ == self.text(),
    {
        let v = self.labels();
        let ghost all = self.labelled();
        let mut s = String::new();
        let mut i: usize = 0;
        proof {
            assert(s@ =~= flags_line(all.take(0)));
        }
        while i < v.len()
            invariant
                i <= v.len(),
                all == v@.map_values(|p: (&'static str, bool)| (p.0@, p.1)),
                s@ == flags_line(all.take(i as int)),
            decreases v.len() - i,
        {
            s.append(v[i].0);
            s.append(flag_name(v[i].1));
            i = i + 1;
            proof {
                assert(all.take(i as int).drop_last() =~= all.take(i - 1));
                assert(all.take(i as int).last() == all[i - 1]);
                assert(all[i - 1] == (v@[i - 1].0@, v@[i - 1].1));
            }
        }
        proof {
            assert(all.take(i as int) =~= all);
        }
        s.append("]");
        s
    }
}

/// Flags in a row, each behind its label.
pub open spec fn flags_line(s: Seq<(Seq<char>, bool)>) -> Seq<char>
    decreases s.len(),
{
    if s.len() == 0 {
        Seq::empty()
    } else {
        flags_line(s.drop_last()) + s.last().0 + flag_text(s.last().1)
    }
}

/// A flag in words.
pub open spec fn flag_text(on: bool) -> Seq<char> {
    if on {
        "true"@
    } else {
        "false"@
    }
}

fn flag_name(on: bool) -> (r: &'static str)
    ensures
        r@ == flag_text(on),
{
    if on {
        "true"
    } else {
        "false"
    }
}

/// Deferred task running is only asked for along with a single issuer, and its flag only along
/// with it.
pub proof fn preferred_flags_are_consistent(caps: KernelCaps)
    ensures
        caps.preferred() & SETUP_DEFER_TASKRUN != 0 ==> caps.preferred() & SETUP_SINGLE_ISSUER != 0,
        caps.preferred() & SETUP_TASKRUN_FLAG != 0 ==> caps.preferred() & SETUP_DEFER_TASKRUN != 0,
{
    let a = flag_if(caps.single_issuer, SETUP_SINGLE_ISSUER);
    let b = flag_if(caps.single_issuer && caps.defer_taskrun, SETUP_DEFER_TASKRUN);
    let c = flag_if(
        caps.single_issuer && caps.defer_taskrun && caps.taskrun_flag,
        SETUP_TASKRUN_FLAG,
    );
    let d = flag_if(caps.submit_all, SETUP_SUBMIT_ALL);
    let e = flag_if(caps.no_sqarray, SETUP_NO_SQARRAY);
    assert((a | b | c | d | e) & 8192 != 0 ==> (a | b | c | d | e) & 4096 != 0) by (bit_vector)
        requires
            a == 0 || a == 4096,
            b == 0 || (b == 8192 && a == 4096),
            c == 0 || (c == 512 && b == 8192),
            d == 0 || d == 128,
            e == 0 || e == 65536,
    ;
    assert((a | b | c | d | e) & 512 != 0 ==> (a | b | c | d | e) & 8192 != 0) by (bit_vector)
        requires
            a == 0 || a == 4096,
            b == 0 || (b == 8192 && a == 4096),
            c == 0 || (c == 512 && b == 8192),
            d == 0 || d == 128,
            e == 0 || e == 65536,
    ;
}

// --------------------------------------------------------------------- set-up

/// Why the ring cannot be used.
#[derive(Clone, Copy, Debug, PartialEq, Eq, Structural)]
pub enum RingError {
    /// There is no io_uring.
    Unavailable,
    /// An operation is missing that the runtime cannot do without.
    MissingOpcode,
    /// The submission queue is full and stays full.
    Exhausted,
    /// The kernel refused, with this error number.
    Os(i32),
}

impl RingError {
    /// What is shown of an error that has no number.
    pub fn message(&self) -> (r: Option<&'static str>)
        ensures
            crate::uri::opt_str(r) == match *self {
                RingError::Unavailable => Some("io_uring is unavailable"@),
                RingError::MissingOpcode => Some(
                    "io_uring is missing a mandatory Phase 1 opcode"@,
                ),
                RingError::Exhausted => Some("submission queue exhausted"@),
                RingError::Os(_) => None,
            },
    {
        match self {
            RingError::Unavailable => Some("io_uring is unavailable"),
            RingError::MissingOpcode => Some("io_uring is missing a mandatory Phase 1 opcode"),
            RingError::Exhausted => Some("submission queue exhausted"),
            RingError::Os(_) => None,
        }
    }
}

/// The error number in a negative result.
pub open spec fn errno_in(rc: i32) -> i32 {
    if rc == i32::MIN {
        rc
    } else {
        (0 - rc) as i32
    }
}

/// The error number in a negative result.
pub fn errno_of(rc: i32) -> (r: i32)
    requires
        rc < 0,
    ensures
        r == errno_in(rc),
{
    if rc == i32::MIN {
        rc
    } else {
        -rc
    }
}

/// The parameters of a ring with these flags.
pub open spec fn params_for(caps: KernelCaps, flags: u32) -> SetupParams {
    if caps.cqsize {
        SetupParams { flags: flags | SETUP_CQSIZE, cq_entries: CQ_ENTRIES }
    } else {
        SetupParams { flags, cq_entries: 0 }
    }
}

/// The rings to try, the preferred one first and a plain one last, or why there is none to try.
pub open spec fn setup_plan(caps: Option<KernelCaps>) -> Result<Seq<SetupParams>, RingError> {
    match caps {
        None => Err(RingError::Unavailable),
        Some(c) => if !c.has_mandatory() {
            Err(RingError::MissingOpcode)
        } else if c.preferred() == 0 {
            Ok(seq![params_for(c, 0)])
        } else {
            Ok(seq![params_for(c, c.preferred()), params_for(c, 0)])
        },
    }
}

fn params_of(caps: &KernelCaps, flags: u32) -> (r: SetupParams)
    ensures
        r == params_for(*caps, flags),
{
    if caps.cqsize {
        SetupParams { flags: flags | SETUP_CQSIZE, cq_entries: CQ_ENTRIES }
    } else {
        SetupParams { flags, cq_entries: 0 }
    }
}

/// The rings to try, the preferred one first and a plain one last.
///
/// The error of the last one is the error of them all.
pub fn setup_attempts(caps: Option<KernelCaps>) -> (r: Result<Vec<SetupParams>, RingError>)
    ensures
        match setup_plan(caps) {
            Ok(s) => r matches Ok(v) && v@ == s,
            Err(e) => r == Err::<Vec<SetupParams>, RingError>(e),
        },
{
    match caps {
        None => Err(RingError::Unavailable),
        Some(c) => {
            if !c.mandatory_opcodes_present() {
                return Err(RingError::MissingOpcode);
            }
            let preferred: u32 = c.preferred_setup_flags();
            let mut v: Vec<SetupParams> = Vec::new();
            if preferred != 0 {
                v.push(params_of(&c, preferred));
            }
            v.push(params_of(&c, 0));
            proof {
                assert(v@ =~= setup_plan(caps)->Ok_0);
            }
            Ok(v)
        },
    }
}

/// Whether the runtime can be used here.
pub fn is_runtime_available(caps: Option<KernelCaps>) -> (r: bool)
    ensures
        r == (setup_plan(caps) is Ok),
{
    match caps {
        None => false,
        Some(c) => c.mandatory_opcodes_present(),
    }
}

/// A kernel is known by what its probes show, one by one; without any ring nothing is known.
pub proof fn probes_are_believed(
    setups: SetupProbe,
    o: OpcodeProbe,
    r: RegistrationProbe,
)
    ensures
        !setups.base ==> KernelCaps::shown_by(setups, Some(o), Some(r)) is None,
        setups.base ==> (KernelCaps::shown_by(setups, Some(o), Some(r)) matches Some(c) && {
            &&& c.single_issuer == setups.single_issuer
            &&& c.defer_taskrun == setups.defer_taskrun
            &&& c.taskrun_flag == setups.taskrun_flag
            &&& c.submit_all == setups.submit_all
            &&& c.cqsize == setups.cqsize
            &&& c.no_sqarray == setups.no_sqarray
            &&& c.op_accept == o.accept
            &&& c.op_connect == o.connect
            &&& c.op_recv == o.recv
            &&& c.op_send == o.send
            &&& c.op_read == o.read
            &&& c.op_write == o.write
            &&& c.op_close == o.close
            &&& c.op_timeout == o.timeout
            &&& c.op_link_timeout == o.link_timeout
            &&& c.op_async_cancel == o.async_cancel
            &&& c.op_socket == o.socket
            &&& c.op_msg_ring == o.msg_ring
            &&& c.sparse_files == (r.sparse_files == 0)
            &&& c.register_ring_fd == (r.ring_fd >= 0)
        }),
        setups.base ==> (KernelCaps::shown_by(setups, None, None) matches Some(c)
            && !c.has_mandatory() && !c.sparse_files && !c.register_ring_fd),
{
}

/// The runtime cannot do without accept, connect, recv, send, read, write, close, timeouts and
/// cancelling; it can without the rest.
pub proof fn nine_operations_are_needed(c: KernelCaps)
    ensures
        !c.op_accept ==> !c.has_mandatory(),
        !c.op_connect ==> !c.has_mandatory(),
        !c.op_recv ==> !c.has_mandatory(),
        !c.op_send ==> !c.has_mandatory(),
        !c.op_read ==> !c.has_mandatory(),
        !c.op_write ==> !c.has_mandatory(),
        !c.op_close ==> !c.has_mandatory(),
        !c.op_timeout ==> !c.has_mandatory(),
        !c.op_async_cancel ==> !c.has_mandatory(),
        c.op_accept && c.op_connect && c.op_recv && c.op_send && c.op_read && c.op_write
            && c.op_close && c.op_timeout && c.op_async_cancel ==> c.has_mandatory(),
{
}

/// Each flag is asked for just where the kernel has it, and those that need others along with
/// them.
pub proof fn flags_are_asked_for_where_known(c: KernelCaps)
    ensures
        c.preferred() & 4096 != 0 <==> c.single_issuer,
        c.preferred() & 8192 != 0 <==> c.single_issuer && c.defer_taskrun,
        c.preferred() & 512 != 0 <==> c.single_issuer && c.defer_taskrun && c.taskrun_flag,
        c.preferred() & 128 != 0 <==> c.submit_all,
        c.preferred() & 65536 != 0 <==> c.no_sqarray,
        c.preferred() & 8 == 0,
{
    let a = flag_if(c.single_issuer, SETUP_SINGLE_ISSUER);
    let b = flag_if(c.single_issuer && c.defer_taskrun, SETUP_DEFER_TASKRUN);
    let d = flag_if(
        c.single_issuer && c.defer_taskrun && c.taskrun_flag,
        SETUP_TASKRUN_FLAG,
    );
    let e = flag_if(c.submit_all, SETUP_SUBMIT_ALL);
    let f = flag_if(c.no_sqarray, SETUP_NO_SQARRAY);
    assert({
        &&& ((a | b | d | e | f) & 4096 != 0) == (a == 4096)
        &&& ((a | b | d | e | f) & 8192 != 0) == (b == 8192)
        &&& ((a | b | d | e | f) & 512 != 0) == (d == 512)
        &&& ((a | b | d | e | f) & 128 != 0) == (e == 128)
        &&& ((a | b | d | e | f) & 65536 != 0) == (f == 65536)
        &&& (a | b | d | e | f) & 8 == 0
    }) by (bit_vector)
        requires
            a == 0 || a == 4096,
            b == 0 || b == 8192,
            d == 0 || d == 512,
            e == 0 || e == 128,
            f == 0 || f == 65536,
    ;
}

/// A ring is set up with the preferred flags and, where that fails, without; with room for 1024
/// completions where that can be chosen. Without a ring, or a needed operation, none is tried.
pub proof fn rings_are_tried_with_and_without_flags(c: KernelCaps)
    ensures
        setup_plan(None) == Err::<Seq<SetupParams>, RingError>(RingError::Unavailable),
        !c.has_mandatory() ==> setup_plan(Some(c)) == Err::<Seq<SetupParams>, RingError>(
            RingError::MissingOpcode,
        ),
        c.has_mandatory() ==> (setup_plan(Some(c)) matches Ok(plan) && plan.len() > 0 && plan[0]
            == params_for(c, c.preferred()) && plan.last() == params_for(c, 0) && plan.len() <= 2),
        c.cqsize ==> params_for(c, 0).cq_entries == 1024 && params_for(c, 0).flags == 8,
        !c.cqsize ==> params_for(c, c.preferred()) == (SetupParams {
            flags: c.preferred(),
            cq_entries: 0,
        }),
        SQ_ENTRIES == 256,
        FIXED_FILE_SLOTS == 4096,
{
    assert(0u32 | 8u32 == 8) by (bit_vector);
}

/// A negative result is the kernel's error number with its sign turned.
pub proof fn error_numbers_are_positive(rc: i32)
    requires
        i32::MIN < rc < 0,
    ensures
        errno_in(rc) == -rc,
{
}

/// The capabilities are shown one after the other, each as `true` or `false`.
pub proof fn capabilities_are_shown(s: Seq<(Seq<char>, bool)>, label: Seq<char>, on: bool)
    ensures
        flags_line(s.push((label, on))) == flags_line(s) + label + if on {
            "true"@
        } else {
            "false"@
        },
        flags_line(Seq::empty()).len() == 0,
{
    assert(s.push((label, on)).drop_last() =~= s);
}

/// Sockets need no descriptors of the process just where the ring has a table of its own, and
/// accepts and makes sockets.
pub proof fn descriptors_of_the_ring(c: KernelCaps, r: bool, available: bool)
    requires
        call_ensures(KernelCaps::direct_descriptors_supported, (&c,), r),
        call_ensures(is_runtime_available, (Some(c),), available),
    ensures
        r <==> c.sparse_files && c.op_accept && c.op_socket,
        available <==> c.has_mandatory(),
{
    rings_are_tried_with_and_without_flags(c);
}

/// The flags are tried one by one, and deferred work together with the flag that it needs.
pub proof fn setups_are_probed_one_by_one(v: Vec<SetupParams>)
    requires
        call_ensures(probe_setups, (), v),
    ensures
        v@.len() == 7,
        v@[0] == (SetupParams { flags: 0, cq_entries: 0 }),
        v@[1] == (SetupParams { flags: 0x1000, cq_entries: 0 }),
        v@[2] == (SetupParams { flags: 0x80, cq_entries: 0 }),
        v@[3] == (SetupParams { flags: 0x1_0000, cq_entries: 0 }),
        v@[4] == (SetupParams { flags: 8, cq_entries: 64 }),
        v@[5] == (SetupParams { flags: 0x3000, cq_entries: 0 }),
        v@[6] == (SetupParams { flags: 0x3200, cq_entries: 0 }),
{
    assert(0x1000u32 | 0x2000u32 == 0x3000u32) by (bit_vector);
    assert(0x1000u32 | 0x2000u32 | 0x200u32 == 0x3200u32) by (bit_vector);
}

/// The line that shows capabilities begins with those of setting up a ring and ends with those of
/// registering, and each is shown as it is.
pub proof fn the_line_shows_each_capability(c: KernelCaps)
    ensures
        c.labelled().len() == 20,
        c.labelled()[0] == ("io_uring caps: setup[single_issuer="@, c.single_issuer),
        c.labelled()[1] == (" defer_taskrun="@, c.defer_taskrun),
        c.labelled()[2] == (" taskrun_flag="@, c.taskrun_flag),
        c.labelled()[3] == (" submit_all="@, c.submit_all),
        c.labelled()[4] == (" cqsize="@, c.cqsize),
        c.labelled()[5] == (" no_sqarray="@, c.no_sqarray),
        c.labelled()[6] == ("] ops[accept="@, c.op_accept),
        c.labelled()[7] == (" connect="@, c.op_connect),
        c.labelled()[8] == (" recv="@, c.op_recv),
        c.labelled()[9] == (" send="@, c.op_send),
        c.labelled()[10] == (" read="@, c.op_read),
        c.labelled()[11] == (" write="@, c.op_write),
        c.labelled()[12] == (" close="@, c.op_close),
        c.labelled()[13] == (" timeout="@, c.op_timeout),
        c.labelled()[14] == (" link_timeout="@, c.op_link_timeout),
        c.labelled()[15] == (" async_cancel="@, c.op_async_cancel),
        c.labelled()[16] == (" socket="@, c.op_socket),
        c.labelled()[17] == (" msg_ring="@, c.op_msg_ring),
        c.labelled()[18] == ("] reg[sparse_files="@, c.sparse_files),
        c.labelled()[19] == (" register_ring_fd="@, c.register_ring_fd),
        c.text() == flags_line(c.labelled()) + seq![']'],
{
    reveal_strlit("]");
    assert("]"@ =~= seq![']']);
}

/// What is wrong with a ring, in words; an error of the system has its own.
pub proof fn errors_in_words(e: RingError, r: Option<&'static str>)
    requires
        call_ensures(RingError::message, (&e,), r),
    ensures
        e == RingError::Unavailable ==> (r matches Some(m) && m@ == "io_uring is unavailable"@),
        e == RingError::MissingOpcode ==> (r matches Some(m) && m@
            == "io_uring is missing a mandatory Phase 1 opcode"@),
        e == RingError::Exhausted ==> (r matches Some(m) && m@ == "submission queue exhausted"@),
        e is Os ==> r is None,
{
}

} // verus!
