//! Certificate authorization options: the length-prefixed option blob
//! decoder, the `SshAuthOpt` record and the reducer that folds decoded
//! `(name, value)` pairs into it, and the destination-permission validator.

use vstd::prelude::*;
use vstd::string::*;
use vstd::utf8::{decode_utf8, valid_utf8};
use crate::addrmatch::{addr_match_cidr_list, cidr_list_valid, CidrListResult};
use crate::numtext::{parse_dec_loose, parse_dec_loose_spec};
use crate::strutil::{contains_char, find_char, lemma_split_cons, split_seq, str_contains_char, str_eq};

verus! {

/// Option namespace selector: decode critical options.
pub const OPTIONS_CRITICAL: u32 = 1;

/// Option namespace selector: decode extensions.
pub const OPTIONS_EXTENSIONS: u32 = 2;

/// Hard cap on recorded destination permissions.
pub const SSH_AUTHOPT_PERMIT_MAX: usize = 100;

/// Longest accepted host name in a permission entry.
pub const NI_MAXHOST: usize = 256;

// ---------------------------------------------------------------------------
// Errors
// ---------------------------------------------------------------------------

/// Decode failures. A certificate whose option blob fails to decode carries
/// no granted capability.
#[derive(Debug, PartialEq, Eq)]
pub enum ParseError {
    InvalidBuffer,
    InvalidOption,
    MultipleOptions(String),
    SyntaxError(String),
    OptionCorruption,
}

/// Specification-level image of `ParseError`.
pub ghost enum ErrModel {
    InvalidBuffer,
    InvalidOption,
    MultipleOptions(Seq<char>),
    SyntaxError(Seq<char>),
    OptionCorruption,
}

impl View for ParseError {
    type V = ErrModel;

    open spec fn view(&self) -> ErrModel {
        match self {
            ParseError::InvalidBuffer => ErrModel::InvalidBuffer,
            ParseError::InvalidOption => ErrModel::InvalidOption,
            ParseError::MultipleOptions(n) => ErrModel::MultipleOptions(n@),
            ParseError::SyntaxError(c) => ErrModel::SyntaxError(c@),
            ParseError::OptionCorruption => ErrModel::OptionCorruption,
        }
    }
}

/// Destination-permission recording failures.
#[derive(Debug, Clone, Copy, PartialEq, Eq, Structural)]
pub enum SshAuthError {
    TooManyPermissions,
    MemoryAllocationFailed,
    InvalidPermissionHostname,
    InvalidPermissionPort,
    UnknownError,
}

// ---------------------------------------------------------------------------
// The authorization options record
// ---------------------------------------------------------------------------

/// The validated, immutable authorization record produced by one decode
/// pass. Every "unset" sentinel (`None`, `-1`) is distinct from an explicit
/// false or empty value.
#[derive(Debug)]
pub struct SshAuthOpt {
    pub force_tun_device: i32,
    pub cert_principals: Option<Vec<String>>,
    pub force_command: Option<String>,
    pub required_from_host_cert: Option<String>,
    pub required_from_host_keys: Option<Vec<String>>,
    pub nenv: usize,
    pub env: Option<Vec<String>>,
    pub npermitopen: usize,
    pub permitopen: Option<Vec<String>>,
    pub npermitlisten: usize,
    pub permitlisten: Option<Vec<String>>,
    pub permit_port_forwarding_flag: bool,
    pub permit_agent_forwarding_flag: bool,
    pub permit_x11_forwarding_flag: bool,
    pub permit_pty_flag: bool,
    pub permit_user_rc: bool,
    pub no_require_user_presence: bool,
    pub require_verify: bool,
}

/// Specification-level image of `SshAuthOpt`: strings as character
/// sequences, counters as unbounded integers.
pub ghost struct AuthOptModel {
    pub force_tun_device: int,
    pub cert_principals: Option<Seq<Seq<char>>>,
    pub force_command: Option<Seq<char>>,
    pub required_from_host_cert: Option<Seq<char>>,
    pub required_from_host_keys: Option<Seq<Seq<char>>>,
    pub nenv: int,
    pub env: Option<Seq<Seq<char>>>,
    pub npermitopen: int,
    pub permitopen: Option<Seq<Seq<char>>>,
    pub npermitlisten: int,
    pub permitlisten: Option<Seq<Seq<char>>>,
    pub permit_port_forwarding_flag: bool,
    pub permit_agent_forwarding_flag: bool,
    pub permit_x11_forwarding_flag: bool,
    pub permit_pty_flag: bool,
    pub permit_user_rc: bool,
    pub no_require_user_presence: bool,
    pub require_verify: bool,
}

pub open spec fn strings_view(v: Option<Vec<String>>) -> Option<Seq<Seq<char>>> {
    match v {
        Some(v) => Some(v.deep_view()),
        None => None,
    }
}

pub open spec fn string_view(v: Option<String>) -> Option<Seq<char>> {
    match v {
        Some(s) => Some(s@),
        None => None,
    }
}

impl View for SshAuthOpt {
    type V = AuthOptModel;

    open spec fn view(&self) -> AuthOptModel {
        AuthOptModel {
            force_tun_device: self.force_tun_device as int,
            cert_principals: strings_view(self.cert_principals),
            force_command: string_view(self.force_command),
            required_from_host_cert: string_view(self.required_from_host_cert),
            required_from_host_keys: strings_view(self.required_from_host_keys),
            nenv: self.nenv as int,
            env: strings_view(self.env),
            npermitopen: self.npermitopen as int,
            permitopen: strings_view(self.permitopen),
            npermitlisten: self.npermitlisten as int,
            permitlisten: strings_view(self.permitlisten),
            permit_port_forwarding_flag: self.permit_port_forwarding_flag,
            permit_agent_forwarding_flag: self.permit_agent_forwarding_flag,
            permit_x11_forwarding_flag: self.permit_x11_forwarding_flag,
            permit_pty_flag: self.permit_pty_flag,
            permit_user_rc: self.permit_user_rc,
            no_require_user_presence: self.no_require_user_presence,
            require_verify: self.require_verify,
        }
    }
}

/// The fully restrictive record: everything unset, every flag false.
pub open spec fn empty_model() -> AuthOptModel {
    AuthOptModel {
        force_tun_device: -1,
        cert_principals: None,
        force_command: None,
        required_from_host_cert: None,
        required_from_host_keys: None,
        nenv: 0,
        env: None,
        npermitopen: 0,
        permitopen: None,
        npermitlisten: 0,
        permitlisten: None,
        permit_port_forwarding_flag: false,
        permit_agent_forwarding_flag: false,
        permit_x11_forwarding_flag: false,
        permit_pty_flag: false,
        permit_user_rc: false,
        no_require_user_presence: false,
        require_verify: false,
    }
}

/// The permissive baseline used for authorized-key options: all forwarding,
/// pty and user-rc capabilities granted, everything else unset.
pub open spec fn keys_defaults_model() -> AuthOptModel {
    AuthOptModel {
        permit_port_forwarding_flag: true,
        permit_agent_forwarding_flag: true,
        permit_x11_forwarding_flag: true,
        permit_pty_flag: true,
        permit_user_rc: true,
        ..empty_model()
    }
}

fn empty_record() -> (r: SshAuthOpt)
    ensures
        r@ == empty_model(),
{
    SshAuthOpt {
        force_tun_device: -1,
        cert_principals: None,
        force_command: None,
        required_from_host_cert: None,
        required_from_host_keys: None,
        nenv: 0,
        env: None,
        npermitopen: 0,
        permitopen: None,
        npermitlisten: 0,
        permitlisten: None,
        permit_port_forwarding_flag: false,
        permit_agent_forwarding_flag: false,
        permit_x11_forwarding_flag: false,
        permit_pty_flag: false,
        permit_user_rc: false,
        no_require_user_presence: false,
        require_verify: false,
    }
}

impl SshAuthOpt {
    /// A fresh, fully restrictive record.
    pub fn new() -> (r: Option<Box<SshAuthOpt>>)
        ensures
            r matches Some(b) && b@ == empty_model(),
    {
        Some(Box::new(empty_record()))
    }

    /// Releasing a record takes no work: dropping it frees its storage.
    pub fn free(&mut self)
        ensures
            *final(self) == *old(self),
    {
    }

    /// A fresh record with the permissive authorized-key defaults.
    pub fn new_with_keys_defaults() -> (r: Option<Box<SshAuthOpt>>)
        ensures
            r matches Some(b) && b@ == keys_defaults_model(),
    {
        let mut ret = match SshAuthOpt::new() {
            Some(b) => b,
            None => {
                return None;
            },
        };
        ret.permit_port_forwarding_flag = true;
        ret.permit_agent_forwarding_flag = true;
        ret.permit_x11_forwarding_flag = true;
        ret.permit_pty_flag = true;
        ret.permit_user_rc = true;
        Some(ret)
    }
}

// ---------------------------------------------------------------------------
// The option blob decoder
// ---------------------------------------------------------------------------

/// The four bytes at `i`, read as a big-endian integer.
pub open spec fn be32(b: Seq<u8>, i: int) -> int {
    b[i] * 0x100_0000 + b[i + 1] * 0x1_0000 + b[i + 2] * 0x100 + b[i + 3]
}

/// One `(name, value)` pair at cursor position `i`: a 4-byte big-endian
/// length and that many name bytes, then the same for the value bytes.
/// `None` means the buffer ends before the pair does.
pub open spec fn read_pair(b: Seq<u8>, i: int) -> Option<(Seq<u8>, Seq<u8>, int)> {
    if i + 4 > b.len() {
        None
    } else {
        let nl = be32(b, i);
        if i + 4 + nl > b.len() {
            None
        } else {
            let name = b.subrange(i + 4, i + 4 + nl);
            let j = i + 4 + nl;
            if j + 4 > b.len() {
                None
            } else {
                let dl = be32(b, j);
                if j + 4 + dl > b.len() {
                    None
                } else {
                    Some((name, b.subrange(j + 4, j + 4 + dl), j + 4 + dl))
                }
            }
        }
    }
}

/// The characters that `String::from_utf8_lossy` reads out of the given
/// bytes; a function of the bytes alone.
pub uninterp spec fn lossy_utf8(bytes: Seq<u8>) -> Seq<char>;

/// Relies on `String::from_utf8_lossy`: the result depends on the bytes
/// alone, and bytes that are valid UTF-8 decode exactly, with no
/// replacement.
#[verifier::external_body]
fn bytes_to_string_lossy(b: &Vec<u8>) -> (r: String)
    ensures
        r@ == lossy_utf8(b@),
        valid_utf8(b@) ==> r@ == decode_utf8(b@),
{
    String::from_utf8_lossy(b.as_slice()).into_owned()
}

fn copy_range(b: &Vec<u8>, from: usize, to: usize) -> (r: Vec<u8>)
    requires
        from <= to <= b@.len(),
    ensures
        r@ == b@.subrange(from as int, to as int),
{
    let mut out: Vec<u8> = Vec::new();
    let mut i: usize = from;
    while i < to
        invariant
            from <= i <= to <= b@.len(),
            out@ =~= b@.subrange(from as int, i as int),
        decreases to - i,
    {
        out.push(b[i]);
        i = i + 1;
    }
    proof {
        assert(out@ =~= b@.subrange(from as int, to as int));
    }
    out
}

fn read_be32(b: &Vec<u8>, i: usize) -> (r: u32)
    requires
        i + 4 <= b@.len(),
    ensures
        r as int == be32(b@, i as int),
{
    let n = b.len();
    assert(i + 4 <= n);
    (b[i] as u32) * 0x100_0000 + (b[i + 1] as u32) * 0x1_0000 + (b[i + 2] as u32) * 0x100 + (b[i
        + 3] as u32)
}

/// Reads the next `(name, value)` pair and advances the cursor past it.
/// `Ok(None)` is the end of the buffer; a pair that would run past the end
/// is `InvalidBuffer` and leaves the cursor unmoved. The name is read as
/// UTF-8, lossily; no semantic validation happens here.
pub fn next_pair(blob: &Vec<u8>, i: &mut usize) -> (r: Result<Option<(String, Vec<u8>)>, ParseError>)
    requires
        *old(i) <= blob@.len(),
    ensures
        *old(i) == blob@.len() ==> (r matches Ok(p) && p is None && *final(i) == *old(i)),
        *old(i) < blob@.len() ==> match read_pair(blob@, *old(i) as int) {
            Some((nm, val, ni)) => {
                &&& r matches Ok(p)
                &&& p matches Some((name, value)) && name@ == lossy_utf8(nm) && value@ == val
                &&& *final(i) == ni
            },
            None => (r matches Err(e) && e@ == ErrModel::InvalidBuffer && *final(i) == *old(i)),
        },
{
    let n = blob.len();
    let idx = *i;
    if idx == n {
        return Ok(None);
    }
    if n - idx < 4 {
        return Err(ParseError::InvalidBuffer);
    }
    let nl = read_be32(blob, idx) as usize;
    if nl > n - (idx + 4) {
        return Err(ParseError::InvalidBuffer);
    }
    let name_bytes = copy_range(blob, idx + 4, idx + 4 + nl);
    let j = idx + 4 + nl;
    if n - j < 4 {
        return Err(ParseError::InvalidBuffer);
    }
    let dl = read_be32(blob, j) as usize;
    if dl > n - (j + 4) {
        return Err(ParseError::InvalidBuffer);
    }
    let value = copy_range(blob, j + 4, j + 4 + dl);
    let name = bytes_to_string_lossy(&name_bytes);
    *i = j + 4 + dl;
    Ok(Some((name, value)))
}

// ---------------------------------------------------------------------------
// The reducer
// ---------------------------------------------------------------------------

/// A matched boolean-flag option must carry no value bytes; the flag is set
/// before the check, mirroring the single decode pass.
pub open spec fn flag_result(m: AuthOptModel, data: Seq<u8>) -> (AuthOptModel, Option<ErrModel>) {
    if data.len() == 0 {
        (m, None)
    } else {
        (m, Some(ErrModel::OptionCorruption))
    }
}

/// Folds one decoded `(name, value)` pair into the record. Known extensions
/// set their flag when the extension namespace is selected; known critical
/// options apply when the critical namespace is selected, with single-valued
/// options failing on a second occurrence and `source-address` vetted as a
/// strict CIDR list. An unrecognized name fails the decode when the pair is
/// classified as critical, and is skipped otherwise.
pub open spec fn apply_pair(
    m: AuthOptModel,
    nm: Seq<char>,
    data: Seq<u8>,
    which: u32,
    crit: bool,
) -> (AuthOptModel, Option<ErrModel>) {
    let ext = which & OPTIONS_EXTENSIONS != 0;
    let cri = which & OPTIONS_CRITICAL != 0;
    if ext && nm == "no-touch-required"@ {
        flag_result(AuthOptModel { no_require_user_presence: true, ..m }, data)
    } else if ext && nm == "permit-X11-forwarding"@ {
        flag_result(AuthOptModel { permit_x11_forwarding_flag: true, ..m }, data)
    } else if ext && nm == "permit-agent-forwarding"@ {
        flag_result(AuthOptModel { permit_agent_forwarding_flag: true, ..m }, data)
    } else if ext && nm == "permit-port-forwarding"@ {
        flag_result(AuthOptModel { permit_port_forwarding_flag: true, ..m }, data)
    } else if ext && nm == "permit-pty"@ {
        flag_result(AuthOptModel { permit_pty_flag: true, ..m }, data)
    } else if ext && nm == "permit-user-rc"@ {
        flag_result(AuthOptModel { permit_user_rc: true, ..m }, data)
    } else if cri && nm == "verify-required"@ {
        flag_result(AuthOptModel { require_verify: true, ..m }, data)
    } else if cri && nm == "force-command"@ {
        if m.force_command is Some {
            (m, Some(ErrModel::MultipleOptions("force-command"@)))
        } else {
            (AuthOptModel { force_command: Some(lossy_utf8(data)), ..m }, None)
        }
    } else if cri && nm == "source-address"@ {
        if m.required_from_host_cert is Some {
            (m, Some(ErrModel::MultipleOptions("source-address"@)))
        } else if !cidr_list_valid(lossy_utf8(data)) {
            (m, Some(ErrModel::OptionCorruption))
        } else {
            (AuthOptModel { required_from_host_cert: Some(lossy_utf8(data)), ..m }, None)
        }
    } else {
        if crit {
            (m, Some(ErrModel::OptionCorruption))
        } else {
            (m, None)
        }
    }
}

/// The whole decode pass from cursor position `i`: the record state after
/// it, and the error that stopped it, if any.
pub open spec fn decode_from(m: AuthOptModel, b: Seq<u8>, i: int, which: u32, crit: bool) -> (
    AuthOptModel,
    Option<ErrModel>,
)
    decreases b.len() - i,
{
    if i >= b.len() {
        (m, None)
    } else {
        match read_pair(b, i) {
            None => (m, Some(ErrModel::InvalidBuffer)),
            Some((nm, data, ni)) => {
                let step = apply_pair(m, lossy_utf8(nm), data, which, crit);
                if step.1 is Some {
                    step
                } else if ni <= i || ni > b.len() {
                    // never taken: a read pair advances the cursor within the
                    // buffer (`lemma_read_pair_advances`); the branch keeps
                    // the recursion visibly well-founded
                    step
                } else {
                    decode_from(step.0, b, ni, which, crit)
                }
            },
        }
    }
}

/// The cursor position a successfully read pair leaves behind is past the
/// pair's eight length bytes, within the buffer.
pub proof fn lemma_read_pair_advances(b: Seq<u8>, i: int)
    requires
        0 <= i,
        read_pair(b, i) is Some,
    ensures
        i + 8 <= read_pair(b, i).unwrap().2 <= b.len(),
{
}

/// Whether `nm` is an option name that the selected namespaces recognize.
pub open spec fn recognized_name(nm: Seq<char>, which: u32) -> bool {
    let ext = which & OPTIONS_EXTENSIONS != 0;
    let cri = which & OPTIONS_CRITICAL != 0;
    ||| ext && (nm == "no-touch-required"@ || nm == "permit-X11-forwarding"@ || nm
        == "permit-agent-forwarding"@ || nm == "permit-port-forwarding"@ || nm == "permit-pty"@
        || nm == "permit-user-rc"@)
    ||| cri && (nm == "verify-required"@ || nm == "force-command"@ || nm == "source-address"@)
}

/// The `(name, value)` pairs of a blob from cursor position `i`, or `None`
/// when the blob is truncated.
pub open spec fn pairs_from(b: Seq<u8>, i: int) -> Option<Seq<(Seq<u8>, Seq<u8>)>>
    decreases b.len() - i,
{
    if i >= b.len() {
        Some(Seq::<(Seq<u8>, Seq<u8>)>::empty())
    } else {
        match read_pair(b, i) {
            None => None,
            Some((nm, data, ni)) => {
                if ni <= i || ni > b.len() {
                    // never taken; see `lemma_read_pair_advances`
                    None
                } else {
                    match pairs_from(b, ni) {
                        Some(rest) => Some(seq![(nm, data)] + rest),
                        None => None,
                    }
                }
            },
        }
    }
}

/// Law: a blob holding a pair whose name no selected namespace recognizes
/// never decodes successfully under the critical classification — an
/// unknown critical option rejects the certificate outright, whatever else
/// the blob holds and whatever record state the decode started from.
pub proof fn lemma_unknown_critical_rejects(
    m: AuthOptModel,
    b: Seq<u8>,
    i: int,
    which: u32,
    j: int,
)
    requires
        0 <= i,
        pairs_from(b, i) is Some,
        0 <= j < pairs_from(b, i).unwrap().len(),
        !recognized_name(lossy_utf8(pairs_from(b, i).unwrap()[j].0), which),
    ensures
        decode_from(m, b, i, which, true).1 is Some,
    decreases j,
{
    let ps = pairs_from(b, i).unwrap();
    assert(i < b.len());
    let p = read_pair(b, i).unwrap();
    lemma_read_pair_advances(b, i);
    let step = apply_pair(m, lossy_utf8(p.0), p.1, which, true);
    if j == 0 {
        assert(ps[0] == (p.0, p.1));
        assert(step.1 is Some);
    } else {
        if step.1 is Some {
        } else {
            let rest = pairs_from(b, p.2).unwrap();
            assert(ps[j] == rest[j - 1]);
            lemma_unknown_critical_rejects(step.0, b, p.2, which, j - 1);
        }
    }
}

/// Applying a pair never clears an already recorded forced command.
proof fn lemma_apply_keeps_force(m: AuthOptModel, nm: Seq<char>, data: Seq<u8>, which: u32, crit: bool)
    requires
        m.force_command is Some,
    ensures
        apply_pair(m, nm, data, which, crit).0.force_command is Some,
{
}

/// Once the forced command is recorded, a later `force-command` pair makes
/// the decode fail.
proof fn lemma_force_command_set_rejects(
    m: AuthOptModel,
    b: Seq<u8>,
    i: int,
    which: u32,
    crit: bool,
    j: int,
)
    requires
        0 <= i,
        which & OPTIONS_CRITICAL != 0,
        m.force_command is Some,
        pairs_from(b, i) is Some,
        0 <= j < pairs_from(b, i).unwrap().len(),
        lossy_utf8(pairs_from(b, i).unwrap()[j].0) == "force-command"@,
    ensures
        decode_from(m, b, i, which, crit).1 is Some,
    decreases j,
{
    let ps = pairs_from(b, i).unwrap();
    assert(i < b.len());
    let p = read_pair(b, i).unwrap();
    lemma_read_pair_advances(b, i);
    let step = apply_pair(m, lossy_utf8(p.0), p.1, which, crit);
    if j == 0 {
        assert(ps[0] == (p.0, p.1));
        reveal_strlit("force-command");
        reveal_strlit("no-touch-required");
        reveal_strlit("permit-X11-forwarding");
        reveal_strlit("permit-agent-forwarding");
        reveal_strlit("permit-port-forwarding");
        reveal_strlit("permit-pty");
        reveal_strlit("permit-user-rc");
        reveal_strlit("verify-required");
        assert(lossy_utf8(p.0) == "force-command"@);
        assert(("force-command"@).len() == 13);
        assert(("no-touch-required"@).len() == 17);
        assert("force-command"@ != "no-touch-required"@);
        assert("force-command"@ != "verify-required"@);
        assert(step.1 is Some);
    } else {
        if step.1 is Some {
        } else {
            lemma_apply_keeps_force(m, lossy_utf8(p.0), p.1, which, crit);
            let rest = pairs_from(b, p.2).unwrap();
            assert(ps[j] == rest[j - 1]);
            lemma_force_command_set_rejects(step.0, b, p.2, which, crit, j - 1);
        }
    }
}

/// Law: a blob holding two pairs named `force-command`, decoded with the
/// critical namespace selected, never decodes successfully — the
/// single-assignment rule holds from any starting record, and the error
/// carries at most the option's name, never either command value.
pub proof fn lemma_duplicate_force_command_rejects(
    m: AuthOptModel,
    b: Seq<u8>,
    i: int,
    which: u32,
    crit: bool,
    j1: int,
    j2: int,
)
    requires
        0 <= i,
        which & OPTIONS_CRITICAL != 0,
        pairs_from(b, i) is Some,
        0 <= j1 < j2 < pairs_from(b, i).unwrap().len(),
        lossy_utf8(pairs_from(b, i).unwrap()[j1].0) == "force-command"@,
        lossy_utf8(pairs_from(b, i).unwrap()[j2].0) == "force-command"@,
    ensures
        decode_from(m, b, i, which, crit).1 is Some,
    decreases j1,
{
    let ps = pairs_from(b, i).unwrap();
    assert(i < b.len());
    let p = read_pair(b, i).unwrap();
    lemma_read_pair_advances(b, i);
    let step = apply_pair(m, lossy_utf8(p.0), p.1, which, crit);
    let rest = pairs_from(b, p.2).unwrap();
    if j1 == 0 {
        assert(ps[0] == (p.0, p.1));
        if step.1 is Some {
        } else {
            reveal_strlit("force-command");
            reveal_strlit("no-touch-required");
            reveal_strlit("permit-X11-forwarding");
            reveal_strlit("permit-agent-forwarding");
            reveal_strlit("permit-port-forwarding");
            reveal_strlit("permit-pty");
            reveal_strlit("permit-user-rc");
            reveal_strlit("verify-required");
            assert(lossy_utf8(p.0) == "force-command"@);
            assert(("force-command"@).len() == 13);
            assert(("no-touch-required"@).len() == 17);
            assert("force-command"@ != "no-touch-required"@);
            assert("force-command"@ != "verify-required"@);
            assert(step.0.force_command is Some);
            assert(ps[j2] == rest[j2 - 1]);
            lemma_force_command_set_rejects(step.0, b, p.2, which, crit, j2 - 1);
        }
    } else {
        if step.1 is Some {
        } else {
            assert(ps[j1] == rest[j1 - 1]);
            assert(ps[j2] == rest[j2 - 1]);
            lemma_duplicate_force_command_rejects(step.0, b, p.2, which, crit, j1 - 1, j2 - 1);
        }
    }
}

fn apply_pair_x(
    opts: &mut SshAuthOpt,
    name: &String,
    data: &Vec<u8>,
    which: u32,
    crit: bool,
) -> (r: Result<(), ParseError>)
    ensures
        ({
            let step = apply_pair(old(opts)@, name@, data@, which, crit);
            &&& final(opts)@ == step.0
            &&& match r {
                Ok(_) => step.1 is None,
                Err(e) => step.1 == Some(e@),
            }
        }),
{
    let ext = which & OPTIONS_EXTENSIONS != 0;
    let cri = which & OPTIONS_CRITICAL != 0;
    if ext && str_eq(name.as_str(), "no-touch-required") {
        opts.no_require_user_presence = true;
        flag_value_check(data)
    } else if ext && str_eq(name.as_str(), "permit-X11-forwarding") {
        opts.permit_x11_forwarding_flag = true;
        flag_value_check(data)
    } else if ext && str_eq(name.as_str(), "permit-agent-forwarding") {
        opts.permit_agent_forwarding_flag = true;
        flag_value_check(data)
    } else if ext && str_eq(name.as_str(), "permit-port-forwarding") {
        opts.permit_port_forwarding_flag = true;
        flag_value_check(data)
    } else if ext && str_eq(name.as_str(), "permit-pty") {
        opts.permit_pty_flag = true;
        flag_value_check(data)
    } else if ext && str_eq(name.as_str(), "permit-user-rc") {
        opts.permit_user_rc = true;
        flag_value_check(data)
    } else if cri && str_eq(name.as_str(), "verify-required") {
        opts.require_verify = true;
        flag_value_check(data)
    } else if cri && str_eq(name.as_str(), "force-command") {
        if opts.force_command.is_some() {
            return Err(ParseError::MultipleOptions("force-command".to_owned()));
        }
        opts.force_command = Some(bytes_to_string_lossy(data));
        Ok(())
    } else if cri && str_eq(name.as_str(), "source-address") {
        if opts.required_from_host_cert.is_some() {
            return Err(ParseError::MultipleOptions("source-address".to_owned()));
        }
        let allowed = bytes_to_string_lossy(data);
        match addr_match_cidr_list(None, allowed.as_str()) {
            CidrListResult::Invalid => Err(ParseError::OptionCorruption),
            _ => {
                opts.required_from_host_cert = Some(allowed);
                Ok(())
            },
        }
    } else {
        if crit {
            Err(ParseError::OptionCorruption)
        } else {
            Ok(())
        }
    }
}

fn flag_value_check(data: &Vec<u8>) -> (r: Result<(), ParseError>)
    ensures
        data@.len() == 0 ==> r is Ok,
        data@.len() != 0 ==> (r matches Err(e) && e@ == ErrModel::OptionCorruption),
{
    if data.len() == 0 {
        Ok(())
    } else {
        Err(ParseError::OptionCorruption)
    }
}

/// Decodes a certificate option blob into `opts`, in a single pass over the
/// length-prefixed `(name, value)` pairs. `which` selects the namespaces to
/// apply; `crit` says whether unrecognized names invalidate the blob. A
/// failed decode produces no partial record: on an error the decode stops
/// at once and leaves the fully restrictive record, which confers no
/// capability.
pub fn cert_option_list(
    opts: &mut SshAuthOpt,
    oblob: &Vec<u8>,
    which: u32,
    crit: bool,
) -> (r: Result<(), ParseError>)
    ensures
        ({
            let d = decode_from(old(opts)@, oblob@, 0, which, crit);
            match r {
                Ok(_) => final(opts)@ == d.0 && d.1 is None,
                Err(e) => d.1 == Some(e@) && final(opts)@ == empty_model(),
            }
        }),
{
    let mut i: usize = 0;
    let ghost d = decode_from(old(opts)@, oblob@, 0, which, crit);
    while i < oblob.len()
        invariant
            0 <= i <= oblob@.len(),
            d == decode_from(old(opts)@, oblob@, 0, which, crit),
            d == decode_from(opts@, oblob@, i as int, which, crit),
        decreases oblob@.len() - i,
    {
        let ghost m0 = opts@;
        let ghost i0 = i as int;
        let (name, value) = match next_pair(oblob, &mut i) {
            Ok(Some(p)) => p,
            Ok(None) => {
                proof {
                    assert(false);
                }
                return Ok(());
            },
            Err(e) => {
                *opts = empty_record();
                return Err(e);
            },
        };
        proof {
            lemma_read_pair_advances(oblob@, i0);
        }
        match apply_pair_x(opts, &name, &value, which, crit) {
            Ok(_) => {},
            Err(e) => {
                *opts = empty_record();
                return Err(e);
            },
        }
    }
    Ok(())
}

// ---------------------------------------------------------------------------
// Destination permissions
// ---------------------------------------------------------------------------

/// Splits `host:port` text at its first colon.
pub fn hpdelim2(s: &str) -> (r: Option<(String, String)>)
    ensures
        match r {
            Some((h, p)) => h@ + seq![':'] + p@ == s@ && !contains_char(h@, ':'),
            None => !contains_char(s@, ':'),
        },
{
    let n = s.unicode_len();
    match find_char(s, ':') {
        Some(idx) => {
            let h = s.substring_char(0, idx).to_owned();
            let p = s.substring_char(idx + 1, n).to_owned();
            proof {
                assert(h@ + seq![':'] + p@ =~= s@);
            }
            Some((h, p))
        },
        None => None,
    }
}

/// A permission entry with a bare port is rewritten to a wildcard host when
/// the caller allows it.
pub open spec fn permit_norm(opt: Seq<char>, allow_bare_port: bool) -> Seq<char> {
    if allow_bare_port && !contains_char(opt, ':') {
        seq!['*', ':'] + opt
    } else {
        opt
    }
}

/// A valid port text is exactly `*` or an unsigned decimal number (leading
/// zeros allowed) no greater than 65535.
pub open spec fn port_ok(p: Seq<char>) -> bool {
    p == seq!['*'] || (match parse_dec_loose_spec(p) {
        Some(v) => v <= 65535,
        None => false,
    })
}

/// Syntax of a (possibly rewritten) permission entry: a non-empty host
/// shorter than the host-name limit before the first colon, then a valid
/// port. A missing colon counts as an empty host.
pub open spec fn permit_validate(x: Seq<char>) -> Option<SshAuthError> {
    if !contains_char(x, ':') {
        Some(SshAuthError::InvalidPermissionHostname)
    } else {
        let h = split_seq(x, ':')[0];
        let p = x.skip(h.len() as int + 1);
        if h.len() == 0 || h.len() >= NI_MAXHOST {
            Some(SshAuthError::InvalidPermissionHostname)
        } else if !port_ok(p) {
            Some(SshAuthError::InvalidPermissionPort)
        } else {
            None
        }
    }
}

fn port_ok_x(p: &str) -> (r: bool)
    ensures
        r == port_ok(p@),
{
    if str_eq(p, "*") {
        proof {
            reveal_strlit("*");
            assert("*"@ =~= seq!['*']);
        }
        return true;
    }
    proof {
        reveal_strlit("*");
        if p@ == seq!['*'] {
            assert(p@ =~= "*"@);
        }
    }
    match parse_dec_loose(p) {
        Some(v) => v <= 65535,
        None => false,
    }
}

/// Validates and records one destination permission. The entry to record is
/// popped from the end of `optsp`; when `allow_bare_port` is set an entry
/// with no colon is first rewritten as `*:<entry>`. A full list
/// (`npermitsp` at the cap) fails before anything is consumed; a syntax
/// failure consumes the entry but records nothing.
pub fn handle_permit(
    optsp: &mut Vec<String>,
    allow_bare_port: bool,
    permitsp: &mut Vec<String>,
    npermitsp: &mut usize,
) -> (r: Result<(), SshAuthError>)
    ensures
        *old(npermitsp) >= SSH_AUTHOPT_PERMIT_MAX ==> ({
            &&& r == Err::<(), SshAuthError>(SshAuthError::TooManyPermissions)
            &&& final(optsp)@ == old(optsp)@
            &&& final(permitsp)@ == old(permitsp)@
            &&& *final(npermitsp) == *old(npermitsp)
        }),
        *old(npermitsp) < SSH_AUTHOPT_PERMIT_MAX && old(optsp)@.len() == 0 ==> ({
            &&& r == Err::<(), SshAuthError>(SshAuthError::UnknownError)
            &&& final(optsp)@ == old(optsp)@
            &&& final(permitsp)@ == old(permitsp)@
            &&& *final(npermitsp) == *old(npermitsp)
        }),
        *old(npermitsp) < SSH_AUTHOPT_PERMIT_MAX && old(optsp)@.len() > 0 ==> ({
            let x = permit_norm(old(optsp)@.last()@, allow_bare_port);
            &&& final(optsp)@ == old(optsp)@.drop_last()
            &&& match permit_validate(x) {
                None => {
                    &&& r is Ok
                    &&& *final(npermitsp) == *old(npermitsp) + 1
                    &&& final(permitsp)@.len() == old(permitsp)@.len() + 1
                    &&& final(permitsp)@.subrange(0, old(permitsp)@.len() as int) == old(permitsp)@
                    &&& final(permitsp)@.last()@ == x
                },
                Some(err) => {
                    &&& r == Err::<(), SshAuthError>(err)
                    &&& final(permitsp)@ == old(permitsp)@
                    &&& *final(npermitsp) == *old(npermitsp)
                },
            }
        }),
{
    if *npermitsp >= SSH_AUTHOPT_PERMIT_MAX {
        return Err(SshAuthError::TooManyPermissions);
    }
    let opt = match optsp.pop() {
        Some(o) => o,
        None => {
            return Err(SshAuthError::UnknownError);
        },
    };
    let norm: String = if allow_bare_port && !str_contains_char(opt.as_str(), ':') {
        let mut t = "*:".to_owned();
        t.append(opt.as_str());
        proof {
            reveal_strlit("*:");
            assert(t@ =~= seq!['*', ':'] + opt@);
        }
        t
    } else {
        opt
    };
    let (host, port) = match hpdelim2(norm.as_str()) {
        Some(hp) => hp,
        None => {
            return Err(SshAuthError::InvalidPermissionHostname);
        },
    };
    proof {
        lemma_split_cons(host@, port@, ':');
        assert(split_seq(norm@, ':')[0] == host@);
        assert(norm@.skip(host@.len() as int + 1) =~= port@);
        assert(norm@[host@.len() as int] == ':');
        assert(contains_char(norm@, ':'));
    }
    let hlen = host.as_str().unicode_len();
    if hlen == 0 || hlen >= NI_MAXHOST {
        return Err(SshAuthError::InvalidPermissionHostname);
    }
    if !port_ok_x(port.as_str()) {
        return Err(SshAuthError::InvalidPermissionPort);
    }
    permitsp.push(norm);
    *npermitsp = *npermitsp + 1;
    proof {
        assert(final(permitsp)@.subrange(0, old(permitsp)@.len() as int) =~= old(permitsp)@);
    }
    Ok(())
}

} // verus!
