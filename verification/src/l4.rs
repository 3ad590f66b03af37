//! Layer-4 services: the `ipvsadm` commands that bring the kernel from one set of services to
//! another, and how they are shown.

use crate::addr::IpAddr;
use crate::config::pools::{lemma_text_before, sorts_before, text_before};
use crate::config::types::{L4Protocol, L4RealServerConfig, L4ServiceConfig, ProxyConfig};
use crate::text::{
    cat, cat3, cat5, chars_of, decimal, decimal_text, joined_with, str_eq, strings, trim, trimmed,
};
use vstd::prelude::*;
use vstd::string::*;

verus! {

/// Why the services could not be set up.
#[derive(Debug)]
pub enum L4Error {
    /// The tool is not there.
    MissingIpvsadm,
    /// The tool is there but may not be used.
    Preflight,
    /// A command could not be run.
    Execute { args: Vec<String>, source: String },
    /// A command failed.
    Command { args: Vec<String>, status: String, stderr: String },
}

/// How `<Vec<String> as Debug>::fmt` writes a list of texts.
pub uninterp spec fn debug_list(args: Seq<Seq<char>>) -> Seq<char>;

/// Writes a list of texts with `<Vec<String> as Debug>::fmt`, by way of `format!`.
///
/// Claimed: what is written depends on the texts alone.
#[verifier::external_body]
fn list_text(args: &Vec<String>) -> (s: String)
    ensures
        s@ == debug_list(strings(args@)),
{
    format!("{:?}", args)
}

impl L4Error {
    /// What is shown to the operator, given how the arguments are written.
    pub open spec fn text(&self, args: Seq<char>) -> Seq<char> {
        match self {
            L4Error::MissingIpvsadm => {
                "ipvsadm is required for l4_services but was not found or is not executable"@
            },
            L4Error::Preflight => {
                "ipvsadm preflight failed; l4_services require Linux IPVS and CAP_NET_ADMIN/root"@
            },
            L4Error::Execute { source, .. } => "failed to run ipvsadm "@ + args + ": "@ + source@,
            L4Error::Command { status, stderr, .. } => "ipvsadm "@ + args + " failed with status "@
                + status@ + ": "@ + stderr@,
        }
    }

    /// The arguments of the command that the error is about.
    pub open spec fn args(&self) -> Seq<Seq<char>> {
        match self {
            L4Error::Execute { args, .. } => strings(args@),
            L4Error::Command { args, .. } => strings(args@),
            _ => Seq::empty(),
        }
    }

    /// What is shown to the operator, given how the arguments are written.
    pub fn message_with(&self, args: &str) -> (s: String)
        ensures
            s@ == self.text(args@),
    {
        match self {
            L4Error::MissingIpvsadm => {
                "ipvsadm is required for l4_services but was not found or is not executable"
                    .to_owned()
            },
            L4Error::Preflight => {
                "ipvsadm preflight failed; l4_services require Linux IPVS and CAP_NET_ADMIN/root"
                    .to_owned()
            },
            L4Error::Execute { source, .. } => {
                let head = cat3("failed to run ipvsadm ", args, ": ");
                cat(head.as_str(), source.as_str())
            },
            L4Error::Command { status, stderr, .. } => {
                let head = cat3("ipvsadm ", args, " failed with status ");
                cat3(cat(head.as_str(), status.as_str()).as_str(), ": ", stderr.as_str())
            },
        }
    }

    /// What is shown to the operator.
    pub fn message(&self) -> (s: String)
        ensures
            s@ == self.text(debug_list(self.args())),
    {
        match self {
            L4Error::Execute { args, .. } => self.message_with(list_text(args).as_str()),
            L4Error::Command { args, .. } => self.message_with(list_text(args).as_str()),
            _ => self.message_with(""),
        }
    }
}

// ------------------------------------------------------------------- commands

/// One call of `ipvsadm`.
#[derive(Clone, Debug, PartialEq, Eq)]
pub struct IpvsCommand {
    pub args: Vec<String>,
    /// Whether it does not matter that the call fails.
    pub ignore_failure: bool,
}

impl IpvsCommand {
    /// Arguments and tolerance as plain values.
    pub open spec fn model(&self) -> (Seq<Seq<char>>, bool) {
        (strings(self.args@), self.ignore_failure)
    }

    /// The arguments.
    pub fn args(&self) -> (r: &Vec<String>)
        ensures
            *r == self.args,
    {
        &self.args
    }
}

/// The commands as plain values.
pub open spec fn models(v: Seq<IpvsCommand>) -> Seq<(Seq<Seq<char>>, bool)> {
    v.map_values(|c: IpvsCommand| c.model())
}

/// Whether two services are the same to the kernel.
pub open spec fn same_key(a: L4ServiceConfig, b: L4ServiceConfig) -> bool {
    a.vip == b.vip && a.port == b.port && a.protocol == b.protocol
}

/// The flag of a service's transport.
pub open spec fn flag_of(p: L4Protocol) -> Seq<char> {
    match p {
        L4Protocol::Tcp => "-t"@,
        L4Protocol::Udp => "-u"@,
    }
}

/// An address with a port.
pub open spec fn endpoint(ip: IpAddr, port: u16) -> Seq<char> {
    ip.text() + ":"@ + decimal(port as nat)
}

/// The command that takes a service out. That there is none does not matter.
pub open spec fn deletion(s: L4ServiceConfig) -> (Seq<Seq<char>>, bool) {
    (seq!["-D"@, flag_of(s.protocol), endpoint(s.vip, s.port)], true)
}

/// The command that puts a service in.
pub open spec fn addition(s: L4ServiceConfig) -> (Seq<Seq<char>>, bool) {
    (
        seq!["-A"@, flag_of(s.protocol), endpoint(s.vip, s.port), "-s"@, s.scheduler.text()],
        false,
    )
}

/// The command that puts a real server behind a service.
pub open spec fn server_addition(s: L4ServiceConfig, r: L4RealServerConfig) -> (
    Seq<Seq<char>>,
    bool,
) {
    (
        seq![
            "-a"@,
            flag_of(s.protocol),
            endpoint(s.vip, s.port),
            "-r"@,
            endpoint(r.address, r.port),
            "-g"@,
            "-w"@,
            decimal(r.weight as nat),
        ],
        false,
    )
}

/// The first `n` services are taken out, each once.
pub open spec fn deletions(ss: Seq<L4ServiceConfig>, n: int) -> Seq<(Seq<Seq<char>>, bool)>
    decreases n,
{
    if n <= 0 {
        Seq::empty()
    } else if exists|j: int| 0 <= j < n - 1 && same_key(#[trigger] ss[j], ss[n - 1]) {
        deletions(ss, n - 1)
    } else {
        deletions(ss, n - 1).push(deletion(ss[n - 1]))
    }
}

/// The first `n` real servers are put behind a service.
pub open spec fn server_additions(s: L4ServiceConfig, n: int) -> Seq<(Seq<Seq<char>>, bool)>
    decreases n,
{
    if n <= 0 {
        Seq::empty()
    } else {
        server_additions(s, n - 1).push(server_addition(s, s.real_servers@[n - 1]))
    }
}

/// The first `n` services are put in, each with its real servers.
pub open spec fn additions(ss: Seq<L4ServiceConfig>, n: int) -> Seq<(Seq<Seq<char>>, bool)>
    decreases n,
{
    if n <= 0 {
        Seq::empty()
    } else {
        additions(ss, n - 1).push(addition(ss[n - 1])) + server_additions(
            ss[n - 1],
            ss[n - 1].real_servers@.len() as int,
        )
    }
}

/// The commands that lead from one set of services to another: every old and new service is
/// taken out, and then the new ones are put in.
pub open spec fn plan(previous: Seq<L4ServiceConfig>, next: Seq<L4ServiceConfig>) -> Seq<
    (Seq<Seq<char>>, bool),
> {
    let all = previous + next;
    deletions(all, all.len() as int) + additions(next, next.len() as int)
}

fn service_flag(p: L4Protocol) -> (r: &'static str)
    ensures
        r@ == flag_of(p),
{
    match p {
        L4Protocol::Tcp => "-t",
        L4Protocol::Udp => "-u",
    }
}

fn endpoint_text(ip: &IpAddr, port: u16) -> (r: String)
    ensures
        r@ == endpoint(*ip, port),
{
    let address = ip.to_text();
    let digits = decimal_text(port as u64);
    cat3(address.as_str(), ":", digits.as_str())
}

fn delete_command(s: &L4ServiceConfig) -> (r: IpvsCommand)
    ensures
        r.model() == deletion(*s),
{
    let mut args: Vec<String> = Vec::new();
    args.push("-D".to_owned());
    args.push(service_flag(s.protocol).to_owned());
    args.push(endpoint_text(&s.vip, s.port));
    proof {
        assert(strings(args@) =~= deletion(*s).0);
    }
    IpvsCommand { args, ignore_failure: true }
}

fn add_command(s: &L4ServiceConfig) -> (r: IpvsCommand)
    ensures
        r.model() == addition(*s),
{
    let mut args: Vec<String> = Vec::new();
    args.push("-A".to_owned());
    args.push(service_flag(s.protocol).to_owned());
    args.push(endpoint_text(&s.vip, s.port));
    args.push("-s".to_owned());
    args.push(s.scheduler.as_str().to_owned());
    proof {
        assert(strings(args@) =~= addition(*s).0);
    }
    IpvsCommand { args, ignore_failure: false }
}

fn add_server_command(s: &L4ServiceConfig, r: &L4RealServerConfig) -> (c: IpvsCommand)
    ensures
        c.model() == server_addition(*s, *r),
{
    let mut args: Vec<String> = Vec::new();
    args.push("-a".to_owned());
    args.push(service_flag(s.protocol).to_owned());
    args.push(endpoint_text(&s.vip, s.port));
    args.push("-r".to_owned());
    args.push(endpoint_text(&r.address, r.port));
    args.push("-g".to_owned());
    args.push("-w".to_owned());
    args.push(decimal_text(r.weight as u64));
    proof {
        assert(strings(args@) =~= server_addition(*s, *r).0);
    }
    IpvsCommand { args, ignore_failure: false }
}

/// Plans and carries out changes to the kernel's services.
#[derive(Clone, Copy, Debug, Default)]
pub struct L4Reconciler;

fn known_before(
    previous: &Vec<L4ServiceConfig>,
    next: &Vec<L4ServiceConfig>,
    n: usize,
) -> (r: bool)
    requires
        n < previous@.len() + next@.len(),
    ensures
        r == exists|j: int|
            0 <= j < n && same_key(
                #[trigger] (previous@ + next@)[j],
                (previous@ + next@)[n as int],
            ),
{
    let ghost all = previous@ + next@;
    let p: usize = previous.len();
    let s = if n < p {
        &previous[n]
    } else {
        &next[n - p]
    };
    let mut j: usize = 0;
    while j < n
        invariant
            j <= n < previous@.len() + next@.len(),
            all == previous@ + next@,
            p == previous@.len(),
            *s == all[n as int],
            forall|k: int| 0 <= k < j ==> !same_key(#[trigger] all[k], *s),
        decreases n - j,
    {
        let other = if j < p {
            &previous[j]
        } else {
            &next[j - p]
        };
        proof {
            assert(*other == all[j as int]);
        }
        if other.vip == s.vip && other.port == s.port && other.protocol == s.protocol {
            proof {
                assert(same_key(all[j as int], all[n as int]));
            }
            return true;
        }
        j = j + 1;
    }
    false
}

impl L4Reconciler {
    /// Whether the services of a configuration can be set up, given whether the tool's two test
    /// calls could be run and succeeded. Without services nothing is needed.
    pub fn preflight(has_services: bool, version: Option<bool>, list: Option<bool>) -> (r: Result<
        (),
        L4Error,
    >)
        ensures
            r.is_ok() <==> !has_services || (version == Some(true) && list == Some(true)),
            r matches Err(e) ==> if version == Some(true) && list == Some(false) {
                e is Preflight
            } else {
                e is MissingIpvsadm
            },
    {
        if !has_services {
            return Ok(());
        }
        match version {
            Some(true) => {},
            _ => {
                return Err(L4Error::MissingIpvsadm);
            },
        }
        match list {
            Some(true) => Ok(()),
            Some(false) => Err(L4Error::Preflight),
            None => Err(L4Error::MissingIpvsadm),
        }
    }

    /// The commands that lead from one set of services to another.
    pub fn reconcile(previous: &Vec<L4ServiceConfig>, next: &Vec<L4ServiceConfig>) -> (r: Vec<
        IpvsCommand,
    >)
        requires
            previous@.len() + next@.len() <= usize::MAX,
        ensures
            models(r@) == plan(previous@, next@),
    {
        let ghost all = previous@ + next@;
        let p: usize = previous.len();
        let total: usize = p + next.len();
        let mut r: Vec<IpvsCommand> = Vec::new();
        let mut n: usize = 0;
        proof {
            assert(models(r@) =~= deletions(all, 0));
        }
        while n < total
            invariant
                n <= total,
                total == previous@.len() + next@.len(),
                p == previous@.len(),
                all == previous@ + next@,
                models(r@) == deletions(all, n as int),
            decreases total - n,
        {
            if !known_before(previous, next, n) {
                let s = if n < p {
                    &previous[n]
                } else {
                    &next[n - p]
                };
                let ghost before = r@;
                let c = delete_command(s);
                r.push(c);
                proof {
                    assert(*s == all[n as int]);
                    assert(models(r@) =~= models(before).push(c.model()));
                }
            }
            n = n + 1;
        }
        let ghost deleted = deletions(all, total as int);
        let mut i: usize = 0;
        proof {
            assert(models(r@) =~= deleted + additions(next@, 0));
        }
        while i < next.len()
            invariant
                i <= next.len(),
                models(r@) == deleted + additions(next@, i as int),
            decreases next.len() - i,
        {
            let s = &next[i];
            let ghost start = r@;
            let c = add_command(s);
            r.push(c);
            proof {
                assert(models(r@) =~= models(start).push(c.model()));
                assert(models(r@) =~= deleted + additions(next@, i as int).push(addition(*s)));
                assert(models(r@) + server_additions(*s, 0) =~= models(r@));
            }
            let ghost opened = deleted + additions(next@, i as int).push(addition(*s));
            let mut k: usize = 0;
            while k < s.real_servers.len()
                invariant
                    k <= s.real_servers.len(),
                    models(r@) == opened + server_additions(*s, k as int),
                decreases s.real_servers.len() - k,
            {
                let ghost before = r@;
                let c = add_server_command(s, &s.real_servers[k]);
                r.push(c);
                k = k + 1;
                proof {
                    assert(models(r@) =~= models(before).push(c.model()));
                    assert(models(r@) =~= opened + server_additions(*s, k as int));
                }
            }
            i = i + 1;
            proof {
                assert(models(r@) =~= deleted + additions(next@, i as int));
            }
        }
        r
    }

    /// The commands as text, one on each line.
    pub fn render_plan(previous: &Vec<L4ServiceConfig>, next: &Vec<L4ServiceConfig>) -> (r: String)
        requires
            previous@.len() + next@.len() <= usize::MAX,
        ensures
            r@ == plan_text(plan(previous@, next@)),
    {
        let commands = L4Reconciler::reconcile(previous, next);
        let ghost ms = plan(previous@, next@);
        if commands.len() == 0 {
            proof {
                assert(models(commands@).len() == 0);
            }
            return "# no l4 ipvs changes\n".to_owned();
        }
        let mut out = String::new();
        let mut i: usize = 0;
        proof {
            assert(ms.len() == commands@.len());
            assert(out@ =~= lines_text(ms, 0));
        }
        while i < commands.len()
            invariant
                i <= commands.len(),
                ms == models(commands@),
                out@ == lines_text(ms, i as int),
            decreases commands.len() - i,
        {
            let line = commands[i].to_text();
            proof {
                assert(ms[i as int] == commands@[i as int].model());
            }
            out.append(line.as_str());
            out.append("\n");
            i = i + 1;
        }
        out
    }
}

/// The commands as text, one on each line; a remark where there are none.
pub open spec fn plan_text(ms: Seq<(Seq<Seq<char>>, bool)>) -> Seq<char> {
    if ms.len() == 0 {
        "# no l4 ipvs changes\n"@
    } else {
        lines_text(ms, ms.len() as int)
    }
}

/// The first `n` commands as text, one on each line.
pub open spec fn lines_text(ms: Seq<(Seq<Seq<char>>, bool)>, n: int) -> Seq<char>
    decreases n,
{
    if n <= 0 {
        Seq::empty()
    } else {
        lines_text(ms, n - 1) + command_text(ms[n - 1]) + "\n"@
    }
}

// ---------------------------------------------------------------------- shell

/// Whether a character means nothing special to a shell.
pub open spec fn plain(c: char) -> bool {
    ('0' <= c <= '9') || ('a' <= c <= 'z') || ('A' <= c <= 'Z') || c == '.' || c == ':' || c == '_'
        || c == '-' || c == '/'
}

/// Whether every character is plain.
pub open spec fn all_plain(s: Seq<char>) -> bool {
    forall|i: int| 0 <= i < s.len() ==> plain(#[trigger] s[i])
}

/// A text between single quotes, up to its own single quotes.
pub open spec fn escaped(s: Seq<char>) -> Seq<char>
    decreases s.len(),
{
    if s.len() == 0 {
        Seq::empty()
    } else if s.last() == '\'' {
        escaped(s.drop_last()) + "'\\''"@
    } else {
        escaped(s.drop_last()).push(s.last())
    }
}

/// A text as one word of a shell command.
pub open spec fn quoted(s: Seq<char>) -> Seq<char> {
    if all_plain(s) {
        s
    } else {
        "'"@ + escaped(s) + "'"@
    }
}

/// The first `n` arguments, each behind a space.
pub open spec fn args_text(args: Seq<Seq<char>>, n: int) -> Seq<char>
    decreases n,
{
    if n <= 0 {
        Seq::empty()
    } else {
        args_text(args, n - 1) + " "@ + quoted(args[n - 1])
    }
}

/// A command as it could be given to a shell.
pub open spec fn command_text(c: (Seq<Seq<char>>, bool)) -> Seq<char> {
    "/usr/sbin/ipvsadm"@ + args_text(c.0, c.0.len() as int) + (if c.1 {
        "  # ignore failure"@
    } else {
        Seq::empty()
    })
}

fn is_plain(c: char) -> (r: bool)
    ensures
        r == plain(c),
{
    ('0' <= c && c <= '9') || ('a' <= c && c <= 'z') || ('A' <= c && c <= 'Z') || c == '.' || c
        == ':' || c == '_' || c == '-' || c == '/'
}

/// Appends a text as one word of a shell command.
pub fn write_shell_arg(out: &mut String, arg: &str)
    ensures
        final(out)@ == old(out)@ + quoted(arg@),
{
    let ghost start = out@;
    let v = chars_of(arg);
    let mut special = false;
    let mut i: usize = 0;
    while i < v.len()
        invariant
            i <= v.len(),
            v@ == arg@,
            special == exists|k: int| 0 <= k < i && !plain(#[trigger] arg@[k]),
        decreases v.len() - i,
    {
        if !is_plain(v[i]) {
            special = true;
        }
        i = i + 1;
    }
    if !special {
        out.append(arg);
        return;
    }
    out.append("'");
    let ghost opened = out@;
    i = 0;
    proof {
        assert(arg@.take(0) =~= Seq::<char>::empty());
        assert(out@ =~= opened + escaped(arg@.take(0)));
    }
    while i < v.len()
        invariant
            i <= v.len(),
            v@ == arg@,
            out@ == opened + escaped(arg@.take(i as int)),
        decreases v.len() - i,
    {
        proof {
            assert(arg@.take(i + 1).drop_last() =~= arg@.take(i as int));
            assert(arg@.take(i + 1).last() == arg@[i as int]);
        }
        if v[i] == '\'' {
            out.append("'\\''");
        } else {
            out.push(v[i]);
        }
        i = i + 1;
        proof {
            assert(out@ =~= opened + escaped(arg@.take(i as int)));
        }
    }
    out.append("'");
    proof {
        assert(arg@.take(i as int) =~= arg@);
        assert(out@ =~= start + quoted(arg@));
    }
}

impl IpvsCommand {
    /// The command as it could be given to a shell.
    pub fn to_text(&self) -> (s: String)
        ensures
            s@ == command_text(self.model()),
    {
        let mut s = "/usr/sbin/ipvsadm".to_owned();
        let ghost all = strings(self.args@);
        let mut i: usize = 0;
        proof {
            assert(s@ =~= "/usr/sbin/ipvsadm"@ + args_text(all, 0));
        }
        while i < self.args.len()
            invariant
                i <= self.args.len(),
                all == strings(self.args@),
                s@ == "/usr/sbin/ipvsadm"@ + args_text(all, i as int),
            decreases self.args.len() - i,
        {
            proof {
                assert(all[i as int] == self.args@[i as int]@);
            }
            s.append(" ");
            write_shell_arg(&mut s, self.args[i].as_str());
            i = i + 1;
            proof {
                assert(s@ =~= "/usr/sbin/ipvsadm"@ + args_text(all, i as int));
            }
        }
        if self.ignore_failure {
            s.append("  # ignore failure");
        }
        proof {
            assert(s@ =~= command_text(self.model()));
        }
        s
    }
}

/// What a shell reads as one word: quotes group, and a backslash outside of quotes takes the
/// next character as it is.
pub open spec fn shell_reads(s: Seq<char>, quoting: bool) -> Option<Seq<char>>
    decreases s.len(),
{
    if s.len() == 0 {
        if quoting {
            None
        } else {
            Some(Seq::empty())
        }
    } else if s[0] == '\'' {
        shell_reads(s.skip(1), !quoting)
    } else if !quoting && s[0] == '\\' {
        if s.len() < 2 {
            None
        } else {
            match shell_reads(s.skip(2), quoting) {
                Some(t) => Some(seq![s[1]] + t),
                None => None,
            }
        }
    } else {
        match shell_reads(s.skip(1), quoting) {
            Some(t) => Some(seq![s[0]] + t),
            None => None,
        }
    }
}

proof fn lemma_reads_plain(s: Seq<char>)
    requires
        all_plain(s),
    ensures
        shell_reads(s, false) == Some(s),
    decreases s.len(),
{
    if s.len() > 0 {
        assert(plain(s[0]));
        assert forall|i: int| 0 <= i < s.skip(1).len() implies plain(#[trigger] s.skip(1)[i]) by {
            assert(s.skip(1)[i] == s[i + 1]);
        }
        lemma_reads_plain(s.skip(1));
        assert(seq![s[0]] + s.skip(1) =~= s);
    } else {
        assert(s =~= Seq::<char>::empty());
    }
}

proof fn lemma_reads_escaped(s: Seq<char>, rest: Seq<char>, tail: Seq<char>)
    requires
        shell_reads(rest, true) == Some(tail),
    ensures
        shell_reads(escaped(s) + rest, true) == Some(s + tail),
    decreases s.len(),
{
    reveal_strlit("'\\''");
    if s.len() == 0 {
        assert(escaped(s) + rest =~= rest);
        assert(s + tail =~= tail);
    } else {
        let d = s.drop_last();
        let c = s.last();
        if c == '\'' {
            let q = "'\\''"@;
            assert(q =~= seq!['\'', '\\', '\'', '\'']);
            let r1 = q + rest;
            assert(r1.skip(1).skip(2).skip(1) =~= rest);
            assert(shell_reads(r1.skip(1).skip(2), false) == shell_reads(rest, true));
            assert(r1.skip(1)[0] == '\\');
            assert(r1.skip(1)[1] == '\'');
            assert(shell_reads(r1.skip(1), false) == Some(seq![c] + tail));
            assert(shell_reads(r1, true) == Some(seq![c] + tail));
            lemma_reads_escaped(d, r1, seq![c] + tail);
            assert(escaped(s) + rest =~= escaped(d) + r1);
        } else {
            let r1 = seq![c] + rest;
            assert(r1.skip(1) =~= rest);
            assert(shell_reads(r1, true) == Some(seq![c] + tail));
            lemma_reads_escaped(d, r1, seq![c] + tail);
            assert(escaped(s) + rest =~= escaped(d) + r1);
        }
        assert(d + (seq![c] + tail) =~= s + tail);
    }
}

/// Whatever an argument holds, a shell reads it back as it was.
pub proof fn shell_reads_quoted_back(s: Seq<char>)
    ensures
        shell_reads(quoted(s), false) == Some(s),
{
    reveal_strlit("'");
    if all_plain(s) {
        lemma_reads_plain(s);
    } else {
        let end = "'"@;
        assert(end =~= seq!['\'']);
        assert(end.skip(1) =~= Seq::<char>::empty());
        assert(shell_reads(Seq::<char>::empty(), false) == Some(Seq::<char>::empty()));
        assert(shell_reads(end, true) == Some(Seq::<char>::empty()));
        lemma_reads_escaped(s, end, Seq::empty());
        let q = quoted(s);
        assert(q[0] == '\'');
        assert(q.skip(1) =~= escaped(s) + end);
        assert(s + Seq::<char>::empty() =~= s);
    }
}

// ------------------------------------------------------------------- outcomes

/// What a finished command left.
pub struct CommandOutput {
    pub success: bool,
    pub status: String,
    pub stderr: String,
}

fn copy_strings(v: &Vec<String>) -> (r: Vec<String>)
    ensures
        r@ == v@,
{
    let mut r: Vec<String> = Vec::new();
    let mut i: usize = 0;
    while i < v.len()
        invariant
            i <= v.len(),
            r@ == v@.take(i as int),
        decreases v.len() - i,
    {
        r.push(v[i].clone());
        i = i + 1;
        proof {
            assert(v@.take(i as int) =~= v@.take(i - 1).push(v@[i - 1]));
        }
    }
    proof {
        assert(v@.take(i as int) =~= v@);
    }
    r
}

/// What running a command came to: a command that could not be run is an error in any case,
/// one that failed is none where that does not matter.
pub fn command_outcome(command: &IpvsCommand, output: Result<CommandOutput, String>) -> (r: Result<
    (),
    L4Error,
>)
    ensures
        match output {
            Err(source) => r matches Err(L4Error::Execute { args, source: s }) && args@
                == command.args@ && s == source,
            Ok(out) => if out.success || command.ignore_failure {
                r is Ok
            } else {
                r matches Err(L4Error::Command { args, status, stderr }) && args@ == command.args@
                    && status == out.status && stderr@ == trimmed(out.stderr@)
            },
        },
{
    match output {
        Err(source) => Err(L4Error::Execute { args: copy_strings(&command.args), source }),
        Ok(out) => {
            if out.success || command.ignore_failure {
                return Ok(());
            }
            Err(
                L4Error::Command {
                    args: copy_strings(&command.args),
                    status: out.status,
                    stderr: trim(out.stderr.as_str()).to_owned(),
                },
            )
        },
    }
}

// ---------------------------------------------------------------------- state

/// Whether two services agree in every field.
pub open spec fn same_service(a: L4ServiceConfig, b: L4ServiceConfig) -> bool {
    &&& a.name == b.name
    &&& a.domains@ == b.domains@
    &&& a.vip == b.vip
    &&& a.port == b.port
    &&& a.protocol == b.protocol
    &&& a.scheduler == b.scheduler
    &&& a.mode == b.mode
    &&& a.real_servers@ == b.real_servers@
    &&& a.health_check == b.health_check
}

/// The services that the kernel was given.
#[derive(Debug)]
pub struct L4State {
    pub services: Vec<L4ServiceConfig>,
}

impl Clone for L4ServiceConfig {
    fn clone(&self) -> (r: Self)
        ensures
            same_service(r, *self),
    {
        let mut real_servers: Vec<L4RealServerConfig> = Vec::new();
        let mut i: usize = 0;
        while i < self.real_servers.len()
            invariant
                i <= self.real_servers.len(),
                real_servers@ == self.real_servers@.take(i as int),
            decreases self.real_servers.len() - i,
        {
            real_servers.push(self.real_servers[i]);
            i = i + 1;
            proof {
                assert(self.real_servers@.take(i as int) =~= self.real_servers@.take(i - 1).push(
                    self.real_servers@[i - 1],
                ));
            }
        }
        proof {
            assert(self.real_servers@.take(i as int) =~= self.real_servers@);
        }
        L4ServiceConfig {
            name: self.name.clone(),
            domains: copy_strings(&self.domains),
            vip: self.vip,
            port: self.port,
            protocol: self.protocol,
            scheduler: self.scheduler,
            mode: self.mode,
            real_servers,
            health_check: self.health_check.clone(),
        }
    }
}

impl Clone for L4State {
    fn clone(&self) -> (r: Self)
        ensures
            r.services@.len() == self.services@.len(),
            forall|i: int|
                0 <= i < r.services@.len() ==> same_service(
                    #[trigger] r.services@[i],
                    self.services@[i],
                ),
    {
        L4State { services: copy_services(&self.services) }
    }
}

impl Default for L4State {
    fn default() -> (r: Self)
        ensures
            r.services@.len() == 0,
    {
        L4State { services: Vec::new() }
    }
}

fn copy_services(from: &Vec<L4ServiceConfig>) -> (services: Vec<L4ServiceConfig>)
    ensures
        services@.len() == from@.len(),
        forall|i: int|
            0 <= i < services@.len() ==> same_service(#[trigger] services@[i], from@[i]),
{
    let mut services: Vec<L4ServiceConfig> = Vec::new();
    let mut i: usize = 0;
    while i < from.len()
        invariant
            i <= from.len(),
            services.len() == i,
            forall|k: int| 0 <= k < i ==> same_service(#[trigger] services@[k], from@[k]),
        decreases from.len() - i,
    {
        services.push(from[i].clone());
        i = i + 1;
    }
    services
}

impl L4State {
    /// The services of a configuration.
    pub fn new(config: &ProxyConfig) -> (r: L4State)
        ensures
            r.services@.len() == config.l4_services@.len(),
            forall|i: int|
                0 <= i < r.services@.len() ==> same_service(
                    #[trigger] r.services@[i],
                    config.l4_services@[i],
                ),
    {
        L4State { services: copy_services(&config.l4_services) }
    }

    /// The services that the kernel was given.
    pub fn services(&self) -> (r: &Vec<L4ServiceConfig>)
        ensures
            *r == self.services,
    {
        &self.services
    }
}

/// The commands that set up the services of a configuration, as text.
pub fn render_config_plan(config: &ProxyConfig) -> (r: String)
    ensures
        r@ == plan_text(plan(Seq::empty(), config.l4_services@)),
{
    let none: Vec<L4ServiceConfig> = Vec::new();
    let n: usize = config.l4_services.len();
    proof {
        assert(none@ =~= Seq::<L4ServiceConfig>::empty());
        assert(n == config.l4_services@.len());
    }
    L4Reconciler::render_plan(&none, &config.l4_services)
}

// -------------------------------------------------------------------- summary

/// `s` with `x` in its place, where it is not there yet.
pub open spec fn put_in_order(s: Seq<Seq<char>>, x: Seq<char>) -> Seq<Seq<char>>
    decreases s.len(),
{
    if s.len() == 0 || text_before(s.last(), x) {
        s.push(x)
    } else if s.last() == x {
        s
    } else {
        put_in_order(s.drop_last(), x).push(s.last())
    }
}

/// The texts in order, each once.
pub open spec fn in_order(s: Seq<Seq<char>>) -> Seq<Seq<char>>
    decreases s.len(),
{
    if s.len() == 0 {
        Seq::empty()
    } else {
        put_in_order(in_order(s.drop_last()), s.last())
    }
}

/// One service in one line: name, domains, address and transport.
pub open spec fn service_line(s: L4ServiceConfig) -> Seq<char> {
    s.name@ + ": "@ + joined_with(in_order(strings(s.domains@)), ", "@) + " -> "@ + endpoint(
        s.vip,
        s.port,
    ) + " "@ + s.protocol.text()
}

/// The services, one in each line.
pub open spec fn summary(ss: Seq<L4ServiceConfig>) -> Seq<char> {
    joined_with(ss.map_values(|s: L4ServiceConfig| service_line(s)), "\n"@)
}

proof fn lemma_put_is_insert(s: Seq<Seq<char>>, x: Seq<char>, i: int)
    requires
        0 <= i <= s.len(),
        i > 0 ==> text_before(s[i - 1], x),
        forall|j: int| i <= j < s.len() ==> !text_before(#[trigger] s[j], x) && s[j] != x,
    ensures
        put_in_order(s, x) == s.insert(i, x),
    decreases s.len(),
{
    if i == s.len() {
        assert(s.insert(i, x) =~= s.push(x));
    } else {
        let d = s.drop_last();
        assert(!text_before(s[s.len() - 1], x) && s[s.len() - 1] != x);
        assert forall|j: int| i <= j < d.len() implies !text_before(#[trigger] d[j], x) && d[j]
            != x by {
            assert(d[j] == s[j]);
        }
        lemma_put_is_insert(d, x, i);
        assert(s.insert(i, x) =~= d.insert(i, x).push(s.last()));
    }
}

proof fn lemma_put_is_same(s: Seq<Seq<char>>, x: Seq<char>, i: int)
    requires
        0 <= i < s.len(),
        s[i] == x,
        forall|j: int| i < j < s.len() ==> !text_before(#[trigger] s[j], x) && s[j] != x,
    ensures
        put_in_order(s, x) == s,
    decreases s.len(),
{
    lemma_text_before(x, x, x);
    if i < s.len() - 1 {
        let d = s.drop_last();
        assert(!text_before(s[s.len() - 1], x) && s[s.len() - 1] != x);
        assert forall|j: int| i < j < d.len() implies !text_before(#[trigger] d[j], x) && d[j]
            != x by {
            assert(d[j] == s[j]);
        }
        lemma_put_is_same(d, x, i);
        assert(s =~= d.push(s.last()));
    }
}

fn sorted_domains(domains: &Vec<String>) -> (r: Vec<String>)
    ensures
        strings(r@) == in_order(strings(domains@)),
{
    let ghost all = strings(domains@);
    let mut r: Vec<String> = Vec::new();
    let mut n: usize = 0;
    proof {
        assert(strings(r@) =~= in_order(all.take(0)));
    }
    while n < domains.len()
        invariant
            n <= domains.len(),
            all == strings(domains@),
            strings(r@) == in_order(all.take(n as int)),
        decreases domains.len() - n,
    {
        let x = domains[n].as_str();
        let ghost s = strings(r@);
        proof {
            assert(all.take(n + 1).drop_last() =~= all.take(n as int));
            assert(all.take(n + 1).last() == x@);
        }
        let mut i: usize = r.len();
        let mut known = false;
        while i > 0 && !known && !sorts_before(r[i - 1].as_str(), x)
            invariant
                i <= r.len(),
                s == strings(r@),
                known ==> i < r.len() && s[i as int] == x@,
                forall|j: int|
                    i <= j < r.len() && !(known && j == i) ==> !text_before(#[trigger] s[j], x@)
                        && s[j] != x@,
            decreases i, if known { 0int } else { 1 },
        {
            proof {
                assert(s[i - 1] == r@[i - 1]@);
            }
            i = i - 1;
            if str_eq(r[i].as_str(), x) {
                known = true;
            }
        }
        if known {
            proof {
                lemma_put_is_same(s, x@, i as int);
            }
        } else {
            proof {
                if i > 0 {
                    assert(s[i - 1] == r@[i - 1]@);
                }
                lemma_put_is_insert(s, x@, i as int);
            }
            r.insert(i, x.to_owned());
            proof {
                assert(strings(r@) =~= s.insert(i as int, x@));
            }
        }
        n = n + 1;
    }
    proof {
        assert(all.take(n as int) =~= all);
    }
    r
}

fn join(parts: &Vec<String>, sep: &str) -> (r: String)
    ensures
        r@ == joined_with(strings(parts@), sep@),
{
    let ghost all = strings(parts@);
    let mut r = String::new();
    let mut i: usize = 0;
    proof {
        assert(r@ =~= joined_with(all.take(0), sep@));
    }
    while i < parts.len()
        invariant
            i <= parts.len(),
            all == strings(parts@),
            r@ == joined_with(all.take(i as int), sep@),
        decreases parts.len() - i,
    {
        let ghost before_part = r@;
        if i > 0 {
            r.append(sep);
        }
        r.append(parts[i].as_str());
        i = i + 1;
        proof {
            let t = all.take(i as int);
            assert(t.drop_last() =~= all.take(i - 1));
            assert(t.last() == parts@[i - 1]@);
            if i == 1 {
                assert(before_part =~= Seq::<char>::empty());
                assert(r@ =~= t[0]);
            } else {
                assert(r@ =~= joined_with(t.drop_last(), sep@) + sep@ + t.last());
            }
        }
    }
    proof {
        assert(all.take(i as int) =~= all);
    }
    r
}

fn service_text(s: &L4ServiceConfig) -> (r: String)
    ensures
        r@ == service_line(*s),
{
    let domains = join(&sorted_domains(&s.domains), ", ");
    let at = endpoint_text(&s.vip, s.port);
    let head = cat5(s.name.as_str(), ": ", domains.as_str(), " -> ", at.as_str());
    cat3(head.as_str(), " ", s.protocol.as_str())
}

/// The services of a configuration, one in each line.
pub fn domain_summary(config: &ProxyConfig) -> (r: String)
    ensures
        r@ == summary(config.l4_services@),
{
    let ss = &config.l4_services;
    let mut lines: Vec<String> = Vec::new();
    let mut i: usize = 0;
    while i < ss.len()
        invariant
            i <= ss.len(),
            lines.len() == i,
            forall|k: int| 0 <= k < i ==> (#[trigger] lines@[k])@ == service_line(ss@[k]),
        decreases ss.len() - i,
    {
        lines.push(service_text(&ss[i]));
        i = i + 1;
    }
    proof {
        assert(strings(lines@) =~= ss@.map_values(|s: L4ServiceConfig| service_line(s)));
    }
    join(&lines, "\n")
}

// ----------------------------------------------------------------------- laws

proof fn lemma_deletions(ss: Seq<L4ServiceConfig>, n: int, i: int)
    requires
        0 <= i < n <= ss.len(),
    ensures
        deletions(ss, n).contains(deletion(ss[i])),
    decreases n,
{
    if i == n - 1 {
        if exists|j: int| 0 <= j < n - 1 && same_key(#[trigger] ss[j], ss[n - 1]) {
            let j = choose|j: int| 0 <= j < n - 1 && same_key(#[trigger] ss[j], ss[n - 1]);
            lemma_deletions(ss, n - 1, j);
            assert(deletion(ss[j]) == deletion(ss[i]));
        } else {
            let d = deletions(ss, n);
            assert(d[d.len() - 1] == deletion(ss[i]));
        }
    } else {
        lemma_deletions(ss, n - 1, i);
        let d = deletions(ss, n - 1);
        let k = choose|k: int| 0 <= k < d.len() && d[k] == deletion(ss[i]);
        assert(deletions(ss, n)[k] == deletion(ss[i]));
    }
}

/// Every service that was set up before is taken out, whether or not it is set up again.
pub proof fn old_services_are_taken_out(
    previous: Seq<L4ServiceConfig>,
    next: Seq<L4ServiceConfig>,
    i: int,
)
    requires
        0 <= i < previous.len(),
    ensures
        plan(previous, next).contains(deletion(previous[i])),
{
    let all = previous + next;
    lemma_deletions(all, all.len() as int, i);
    assert(all[i] == previous[i]);
    let d = deletions(all, all.len() as int);
    let k = choose|k: int| 0 <= k < d.len() && d[k] == deletion(previous[i]);
    assert(plan(previous, next)[k] == deletion(previous[i]));
}

/// Without old and new services there is nothing to do.
pub proof fn nothing_for_nothing()
    ensures
        plan(Seq::empty(), Seq::empty()).len() == 0,
{
    let none = Seq::<L4ServiceConfig>::empty();
    assert((none + none).len() == 0);
}

// ------------------------------------------------------------- in words and commands

/// The commands of the tool: a service is taken out with `-D`, which may fail; it is added with
/// `-A` and its scheduler; a real server is added to it with `-a`, by direct routing and with
/// its weight.
pub proof fn commands_are_those_of_the_tool(s: L4ServiceConfig, r: L4RealServerConfig)
    ensures
        deletion(s) == (
            seq!["-D"@, flag_of(s.protocol), s.vip.text() + ":"@ + decimal(s.port as nat)],
            true,
        ),
        addition(s) == (
            seq![
                "-A"@,
                flag_of(s.protocol),
                s.vip.text() + ":"@ + decimal(s.port as nat),
                "-s"@,
                s.scheduler.text(),
            ],
            false,
        ),
        server_addition(s, r) == (
            seq![
                "-a"@,
                flag_of(s.protocol),
                s.vip.text() + ":"@ + decimal(s.port as nat),
                "-r"@,
                r.address.text() + ":"@ + decimal(r.port as nat),
                "-g"@,
                "-w"@,
                decimal(r.weight as nat),
            ],
            false,
        ),
        flag_of(L4Protocol::Tcp) == "-t"@,
        flag_of(L4Protocol::Udp) == "-u"@,
{
}

/// Every service that is to be there is added, with each of its real servers.
pub proof fn new_services_are_added(
    previous: Seq<L4ServiceConfig>,
    next: Seq<L4ServiceConfig>,
    i: int,
    k: int,
)
    requires
        0 <= i < next.len(),
    ensures
        plan(previous, next).contains(addition(next[i])),
        0 <= k < next[i].real_servers@.len() ==> plan(previous, next).contains(
            server_addition(next[i], next[i].real_servers@[k]),
        ),
{
    let d = deletions(previous + next, (previous + next).len() as int);
    let a = additions(next, next.len() as int);
    lemma_additions(next, next.len() as int, i, k);
    let j = choose|j: int| 0 <= j < a.len() && a[j] == addition(next[i]);
    assert((d + a)[d.len() + j] == addition(next[i]));
    if 0 <= k < next[i].real_servers@.len() {
        let m = choose|m: int|
            0 <= m < a.len() && a[m] == server_addition(next[i], next[i].real_servers@[k]);
        assert((d + a)[d.len() + m] == server_addition(next[i], next[i].real_servers@[k]));
    }
}

proof fn lemma_server_additions(s: L4ServiceConfig, n: int, k: int)
    requires
        0 <= k < n <= s.real_servers@.len(),
    ensures
        server_additions(s, n).len() == n,
        server_additions(s, n)[k] == server_addition(s, s.real_servers@[k]),
    decreases n,
{
    if n > 1 {
        lemma_server_additions(s, n - 1, if k < n - 1 {
            k
        } else {
            0
        });
    } else {
        assert(server_additions(s, n - 1).len() == 0);
    }
}

proof fn lemma_additions(ss: Seq<L4ServiceConfig>, n: int, i: int, k: int)
    requires
        0 <= i < n <= ss.len(),
    ensures
        additions(ss, n).contains(addition(ss[i])),
        0 <= k < ss[i].real_servers@.len() ==> additions(ss, n).contains(
            server_addition(ss[i], ss[i].real_servers@[k]),
        ),
    decreases n,
{
    let all = additions(ss, n);
    let before = additions(ss, n - 1);
    let s = ss[n - 1];
    let servers = server_additions(s, s.real_servers@.len() as int);
    assert(all == before.push(addition(s)) + servers);
    if i == n - 1 {
        assert(all[before.len() as int] == addition(s));
        if 0 <= k < s.real_servers@.len() {
            lemma_server_additions(s, s.real_servers@.len() as int, k);
            assert(all[before.len() + 1 + k] == servers[k]);
        }
    } else {
        lemma_additions(ss, n - 1, i, k);
        let j = choose|j: int| 0 <= j < before.len() && before[j] == addition(ss[i]);
        assert(all[j] == addition(ss[i]));
        if 0 <= k < ss[i].real_servers@.len() {
            let c = server_addition(ss[i], ss[i].real_servers@[k]);
            let m = choose|m: int| 0 <= m < before.len() && before[m] == c;
            assert(all[m] == c);
        }
    }
}

/// Services are taken out before any is added: the commands that may fail come first, and only
/// they may fail.
pub proof fn services_are_taken_out_first(
    previous: Seq<L4ServiceConfig>,
    next: Seq<L4ServiceConfig>,
    i: int,
    j: int,
)
    requires
        0 <= i < plan(previous, next).len(),
        0 <= j < plan(previous, next).len(),
        plan(previous, next)[i].1,
        !plan(previous, next)[j].1,
    ensures
        i < j,
        plan(previous, next)[i].0[0] == "-D"@,
        plan(previous, next)[j].0[0] == "-A"@ || plan(previous, next)[j].0[0] == "-a"@,
{
    let all = previous + next;
    let d = deletions(all, all.len() as int);
    let a = additions(next, next.len() as int);
    lemma_deletions_may_fail(all, all.len() as int);
    lemma_additions_may_not(next, next.len() as int);
    if i >= d.len() {
        assert(plan(previous, next)[i] == a[i - d.len()]);
    }
    if j < d.len() {
        assert(plan(previous, next)[j] == d[j]);
    } else {
        assert(plan(previous, next)[j] == a[j - d.len()]);
    }
}

proof fn lemma_deletions_may_fail(ss: Seq<L4ServiceConfig>, n: int)
    ensures
        forall|k: int|
            0 <= k < deletions(ss, n).len() ==> (#[trigger] deletions(ss, n)[k]).1 && deletions(
                ss,
                n,
            )[k].0[0] == "-D"@,
    decreases n,
{
    if n > 0 {
        lemma_deletions_may_fail(ss, n - 1);
        let d = deletions(ss, n - 1);
        assert forall|k: int| 0 <= k < deletions(ss, n).len() implies (#[trigger] deletions(
            ss,
            n,
        )[k]).1 && deletions(ss, n)[k].0[0] == "-D"@ by {
            if k < d.len() {
                assert(deletions(ss, n)[k] == d[k]);
            }
        }
    }
}

proof fn lemma_servers_may_not(s: L4ServiceConfig, n: int)
    ensures
        forall|k: int|
            0 <= k < server_additions(s, n).len() ==> !(#[trigger] server_additions(s, n)[k]).1
                && server_additions(s, n)[k].0[0] == "-a"@,
    decreases n,
{
    if n > 0 {
        lemma_servers_may_not(s, n - 1);
        let d = server_additions(s, n - 1);
        assert forall|k: int| 0 <= k < server_additions(s, n).len() implies !(
        #[trigger] server_additions(s, n)[k]).1 && server_additions(s, n)[k].0[0] == "-a"@ by {
            if k < d.len() {
                assert(server_additions(s, n)[k] == d[k]);
            }
        }
    }
}

proof fn lemma_additions_may_not(ss: Seq<L4ServiceConfig>, n: int)
    ensures
        forall|k: int|
            0 <= k < additions(ss, n).len() ==> !(#[trigger] additions(ss, n)[k]).1 && (additions(
                ss,
                n,
            )[k].0[0] == "-A"@ || additions(ss, n)[k].0[0] == "-a"@),
    decreases n,
{
    if n > 0 {
        lemma_additions_may_not(ss, n - 1);
        let s = ss[n - 1];
        let m = s.real_servers@.len() as int;
        lemma_servers_may_not(s, m);
        let d = additions(ss, n - 1);
        let all = additions(ss, n);
        assert forall|k: int| 0 <= k < all.len() implies !(#[trigger] all[k]).1 && (all[k].0[0]
            == "-A"@ || all[k].0[0] == "-a"@) by {
            if k < d.len() {
                assert(all[k] == d[k]);
            } else if k > d.len() {
                assert(all[k] == server_additions(s, m)[k - d.len() - 1]);
            } else {
                assert(all[k] == addition(s));
            }
        }
    }
}

/// There are as many additions as services and real servers, and no more deletions than
/// services of either configuration.
pub proof fn plans_do_nothing_else(previous: Seq<L4ServiceConfig>, next: Seq<L4ServiceConfig>)
    ensures
        deletions(previous + next, (previous + next).len() as int).len() <= previous.len()
            + next.len(),
        additions(next, next.len() as int).len() == next.len() + servers_of(
            next,
            next.len() as int,
        ),
        plan(previous, next).len() == deletions(
            previous + next,
            (previous + next).len() as int,
        ).len() + next.len() + servers_of(next, next.len() as int),
{
    lemma_deletion_count(previous + next, (previous + next).len() as int);
    lemma_addition_count(next, next.len() as int);
}

/// How many real servers the first `n` services have.
pub open spec fn servers_of(ss: Seq<L4ServiceConfig>, n: int) -> nat
    decreases n,
{
    if n <= 0 {
        0
    } else {
        servers_of(ss, n - 1) + ss[n - 1].real_servers@.len()
    }
}

proof fn lemma_deletion_count(ss: Seq<L4ServiceConfig>, n: int)
    requires
        0 <= n,
    ensures
        deletions(ss, n).len() <= n,
    decreases n,
{
    if n > 0 {
        lemma_deletion_count(ss, n - 1);
    }
}

proof fn lemma_server_count(s: L4ServiceConfig, n: int)
    requires
        0 <= n,
    ensures
        server_additions(s, n).len() == n,
    decreases n,
{
    if n > 0 {
        lemma_server_count(s, n - 1);
    }
}

proof fn lemma_addition_count(ss: Seq<L4ServiceConfig>, n: int)
    requires
        0 <= n <= ss.len(),
    ensures
        additions(ss, n).len() == n + servers_of(ss, n),
    decreases n,
{
    if n > 0 {
        lemma_addition_count(ss, n - 1);
        lemma_server_count(ss[n - 1], ss[n - 1].real_servers@.len() as int);
    }
}

/// Two services are one to the kernel where address, port and transport agree; whatever else
/// differs, they are taken out once.
pub proof fn services_are_told_apart_by_address(a: L4ServiceConfig, b: L4ServiceConfig)
    ensures
        same_key(a, b) <==> a.vip == b.vip && a.port == b.port && a.protocol == b.protocol,
        same_key(a, b) ==> deletion(a) == deletion(b) && deletions(seq![a, b], 2).len() == 1,
        !same_key(a, b) ==> deletions(seq![a, b], 2) == seq![deletion(a), deletion(b)],
{
    let s = seq![a, b];
    assert(deletions(s, 0).len() == 0);
    assert(!(exists|j: int| 0 <= j < 0 && same_key(#[trigger] s[j], s[0])));
    assert(deletions(s, 1) =~= seq![deletion(a)]);
    if same_key(a, b) {
        assert(same_key(s[0], s[1]));
    } else {
        assert forall|j: int| 0 <= j < 1 implies !same_key(#[trigger] s[j], s[1]) by {}
        assert(deletions(s, 2) =~= seq![deletion(a), deletion(b)]);
    }
}

/// A plan is shown command by command, each on a line of its own that begins with the tool; an
/// empty plan is shown as such.
pub proof fn plans_are_shown_line_by_line(
    ms: Seq<(Seq<Seq<char>>, bool)>,
    c: (Seq<Seq<char>>, bool),
    word: Seq<char>,
)
    ensures
        plan_text(Seq::empty()) == "# no l4 ipvs changes\n"@,
        plan_text(seq![c]) == command_text(c) + "\n"@,
        ms.len() > 0 ==> plan_text(ms.push(c)) == plan_text(ms) + command_text(c) + "\n"@,
        command_text((seq![word], false)) == "/usr/sbin/ipvsadm "@ + quoted(word),
        command_text((seq![word], true)) == command_text((seq![word], false))
            + "  # ignore failure"@,
{
    lemma_lines(ms, ms.push(c), ms.len() as int);
    let one = seq![c];
    assert(lines_text(one, 0) =~= Seq::<char>::empty());
    assert(lines_text(one, 1) =~= command_text(c) + "\n"@);
    reveal_strlit("/usr/sbin/ipvsadm");
    reveal_strlit("/usr/sbin/ipvsadm ");
    reveal_strlit(" ");
    assert("/usr/sbin/ipvsadm "@ =~= "/usr/sbin/ipvsadm"@ + " "@);
    let args = seq![word];
    assert(args_text(args, 0) =~= Seq::<char>::empty());
    assert(args_text(args, 1) =~= " "@ + quoted(word));
    assert(command_text((args, false)) =~= "/usr/sbin/ipvsadm "@ + quoted(word));
    assert(command_text((args, true)) =~= command_text((args, false)) + "  # ignore failure"@);
}

proof fn lemma_lines(
    a: Seq<(Seq<Seq<char>>, bool)>,
    b: Seq<(Seq<Seq<char>>, bool)>,
    n: int,
)
    requires
        n <= a.len(),
        n <= b.len(),
        forall|k: int| 0 <= k < n ==> a[k] == b[k],
    ensures
        lines_text(a, n) == lines_text(b, n),
    decreases n,
{
    if n > 0 {
        lemma_lines(a, b, n - 1);
    }
}

/// A word of letters, digits and the marks of addresses and paths is shown as it is; any other
/// in single quotes.
pub proof fn plain_words_are_not_quoted(c: char)
    ensures
        plain(c) <==> '0' <= c <= '9' || 'a' <= c <= 'z' || 'A' <= c <= 'Z' || c == '.' || c == ':'
            || c == '_' || c == '-' || c == '/',
        plain(c) ==> quoted(seq![c]) == seq![c],
        !plain(c) && c != '\'' ==> quoted(seq![c]) == seq!['\'', c, '\''],
{
    let s = seq![c];
    reveal_strlit("'");
    assert("'"@ =~= seq!['\'']);
    assert(s.drop_last() =~= Seq::<char>::empty());
    assert(escaped(s.drop_last()) =~= Seq::<char>::empty());
    if !plain(c) {
        assert(!plain(s[0]));
        if c != '\'' {
            assert(escaped(s) =~= s);
            assert(quoted(s) =~= seq!['\'', c, '\'']);
        }
    }
}

/// The domains of a service are shown in order, each once.
pub proof fn domains_are_shown_in_order(s: Seq<Seq<char>>)
    ensures
        forall|x: Seq<char>| #[trigger] in_order(s).contains(x) <==> s.contains(x),
        forall|i: int, j: int|
            0 <= i < j < in_order(s).len() ==> text_before(
                #[trigger] in_order(s)[i],
                #[trigger] in_order(s)[j],
            ),
    decreases s.len(),
{
    if s.len() > 0 {
        let d = s.drop_last();
        domains_are_shown_in_order(d);
        lemma_put(in_order(d), s.last());
        assert forall|x: Seq<char>| #[trigger] in_order(s).contains(x) <==> s.contains(x) by {
            if s.contains(x) {
                let k = choose|k: int| 0 <= k < s.len() && s[k] == x;
                if k < d.len() {
                    assert(d[k] == x);
                    assert(d.contains(x));
                }
            }
            if d.contains(x) {
                let k = choose|k: int| 0 <= k < d.len() && d[k] == x;
                assert(s[k] == x);
            }
            if x == s.last() {
                assert(s[s.len() - 1] == x);
            }
            assert(in_order(d).contains(x) <==> d.contains(x));
        }
    }
}

proof fn lemma_put(s: Seq<Seq<char>>, x: Seq<char>)
    requires
        forall|i: int, j: int|
            0 <= i < j < s.len() ==> text_before(#[trigger] s[i], #[trigger] s[j]),
    ensures
        forall|y: Seq<char>| #[trigger] put_in_order(s, x).contains(y) <==> s.contains(y) || y == x,
        forall|i: int, j: int|
            0 <= i < j < put_in_order(s, x).len() ==> text_before(
                #[trigger] put_in_order(s, x)[i],
                #[trigger] put_in_order(s, x)[j],
            ),
    decreases s.len(),
{
    let t = put_in_order(s, x);
    if s.len() == 0 || text_before(s.last(), x) {
        assert forall|y: Seq<char>| #[trigger] t.contains(y) <==> s.contains(y) || y == x by {
            if s.contains(y) {
                let k = choose|k: int| 0 <= k < s.len() && s[k] == y;
                assert(t[k] == y);
            }
            assert(t[s.len() as int] == x);
            if t.contains(y) {
                let k = choose|k: int| 0 <= k < t.len() && t[k] == y;
                if k < s.len() {
                    assert(s[k] == y);
                }
            }
        }
        assert forall|i: int, j: int| 0 <= i < j < t.len() implies text_before(
            #[trigger] t[i],
            #[trigger] t[j],
        ) by {
            if j == s.len() {
                if i < s.len() - 1 {
                    assert(text_before(s[i], s[s.len() - 1]));
                    lemma_text_before(s[i], s.last(), x);
                }
            } else {
                assert(text_before(s[i], s[j]));
            }
        }
    } else if s.last() == x {
        assert forall|y: Seq<char>| #[trigger] t.contains(y) <==> s.contains(y) || y == x by {
            assert(s[s.len() - 1] == x);
        }
    } else {
        let d = s.drop_last();
        let p = put_in_order(d, x);
        assert forall|i: int, j: int| 0 <= i < j < d.len() implies text_before(
            #[trigger] d[i],
            #[trigger] d[j],
        ) by {
            assert(text_before(s[i], s[j]));
        }
        lemma_put(d, x);
        assert forall|y: Seq<char>| #[trigger] t.contains(y) <==> s.contains(y) || y == x by {
            assert(p.contains(y) <==> d.contains(y) || y == x);
            if d.contains(y) {
                let k = choose|k: int| 0 <= k < d.len() && d[k] == y;
                assert(s[k] == y);
            }
            if s.contains(y) {
                let k = choose|k: int| 0 <= k < s.len() && s[k] == y;
                if k < d.len() {
                    assert(d[k] == y);
                    assert(d.contains(y));
                } else {
                    assert(t[p.len() as int] == y);
                }
            }
            if p.contains(y) {
                let k = choose|k: int| 0 <= k < p.len() && p[k] == y;
                assert(t[k] == y);
            }
            if t.contains(y) {
                let k = choose|k: int| 0 <= k < t.len() && t[k] == y;
                if k < p.len() {
                    assert(p[k] == y);
                } else {
                    assert(s[s.len() - 1] == y);
                }
            }
        }
        lemma_text_before(x, s.last(), x);
        assert forall|i: int, j: int| 0 <= i < j < t.len() implies text_before(
            #[trigger] t[i],
            #[trigger] t[j],
        ) by {
            if j < p.len() {
                assert(text_before(p[i], p[j]));
            } else {
                assert(p.contains(p[i]));
                if d.contains(p[i]) {
                    let k = choose|k: int| 0 <= k < d.len() && d[k] == p[i];
                    assert(text_before(s[k], s[s.len() - 1]));
                }
            }
        }
    }
}

/// A command that could not be run is always an error; one that ran and failed is one unless
/// it may fail; one that succeeded never is.
pub proof fn outcomes_of_commands(
    command: &IpvsCommand,
    output: Result<CommandOutput, String>,
    r: Result<(), L4Error>,
)
    requires
        call_ensures(command_outcome, (command, output), r),
    ensures
        output is Err ==> r is Err,
        output matches Ok(out) ==> (r is Err <==> !out.success && !command.ignore_failure),
{
}

/// Without services nothing is needed; with services the tool must be there and may be used.
pub proof fn services_need_the_tool(
    has_services: bool,
    version: Option<bool>,
    list: Option<bool>,
    r: Result<(), L4Error>,
)
    requires
        call_ensures(L4Reconciler::preflight, (has_services, version, list), r),
    ensures
        !has_services ==> r is Ok,
        has_services && version != Some(true) ==> (r matches Err(e) && e is MissingIpvsadm),
        has_services && version == Some(true) && list == Some(false) ==> (r matches Err(e)
            && e is Preflight),
        has_services && version == Some(true) && list == Some(true) ==> r is Ok,
{
}

/// What went wrong with the tool, in words.
pub proof fn failures_in_words(e: L4Error, args: &str, s: String)
    requires
        call_ensures(L4Error::message_with, (&e, args), s),
    ensures
        e is MissingIpvsadm ==> s@
            == "ipvsadm is required for l4_services but was not found or is not executable"@,
        e is Preflight ==> s@
            == "ipvsadm preflight failed; l4_services require Linux IPVS and CAP_NET_ADMIN/root"@,
        e matches L4Error::Execute { source, .. } ==> s@ == "failed to run ipvsadm "@ + args@
            + ": "@ + source@,
        e matches L4Error::Command { status, stderr, .. } ==> s@ == "ipvsadm "@ + args@
            + " failed with status "@ + status@ + ": "@ + stderr@,
{
}

/// A line of the summary names the service, its domains, and where and how it is reached.
pub proof fn services_are_summed_up(s: L4ServiceConfig, name: Seq<char>, domain: String)
    requires
        s.name@ == name,
        s.domains@ == seq![domain],
    ensures
        service_line(s) == name + ": "@ + domain@ + " -> "@ + s.vip.text() + ":"@ + decimal(
            s.port as nat,
        ) + " "@ + s.protocol.text(),
        summary(seq![s]) == service_line(s),
        summary(Seq::empty()).len() == 0,
{
    assert(strings(s.domains@) =~= seq![domain@]);
    reveal_with_fuel(joined_with, 3);
    reveal_with_fuel(in_order, 3);
    assert(seq![s].map_values(|x: L4ServiceConfig| service_line(x)) =~= seq![service_line(s)]);
    assert(Seq::<L4ServiceConfig>::empty().map_values(|x: L4ServiceConfig| service_line(x))
        =~= Seq::empty());
    domains_are_shown_in_order(seq![domain@]);
    assert(in_order(seq![domain@]) =~= seq![domain@]);
    assert(joined_with(seq![domain@], ", "@) =~= domain@);
    assert(service_line(s) =~= name + ": "@ + domain@ + " -> "@ + s.vip.text() + ":"@ + decimal(
        s.port as nat,
    ) + " "@ + s.protocol.text());
}

/// The summary has a line for each service, in order.
pub proof fn summaries_are_line_by_line(ss: Seq<L4ServiceConfig>, s: L4ServiceConfig)
    requires
        ss.len() > 0,
    ensures
        summary(ss.push(s)) == summary(ss) + seq!['\n'] + service_line(s),
{
    reveal_strlit("\n");
    assert("\n"@ =~= seq!['\n']);
    let f = |x: L4ServiceConfig| service_line(x);
    assert(ss.push(s).map_values(f).drop_last() =~= ss.map_values(f));
    assert(ss.push(s).map_values(f).last() == service_line(s));
}

/// A plan for a configuration is one from nothing, and is shown as such.
pub proof fn plans_are_shown_from_nothing(
    config: ProxyConfig,
    r: String,
    text: String,
)
    requires
        call_ensures(render_config_plan, (&config,), r),
        call_ensures(domain_summary, (&config,), text),
    ensures
        r@ == plan_text(plan(Seq::empty(), config.l4_services@)),
        config.l4_services@.len() == 0 ==> r@ == "# no l4 ipvs changes\n"@ && text@.len() == 0,
        text@ == summary(config.l4_services@),
{
    if config.l4_services@.len() == 0 {
        assert(config.l4_services@ =~= Seq::empty());
        nothing_for_nothing();
        plans_are_shown_line_by_line(Seq::empty(), (Seq::empty(), false), Seq::empty());
        assert(Seq::<L4ServiceConfig>::empty().map_values(|x: L4ServiceConfig| service_line(x))
            =~= Seq::empty());
    }
}

} // verus!
