//! The mover's settings: read from environment-style text, then checked
//! against the limits of the kernel's I/O ring.
use vstd::prelude::*;
use vstd::string::*;
use crate::text::{
    decimal_value, lowercased, parse_decimal, same_text, to_lower, trim_str, trimmed,
};

verus! {

/// Poll for I/O completion.
pub const IORING_SETUP_IOPOLL: u32 = 0x01;

/// Kernel polling thread for the submission queue.
pub const IORING_SETUP_SQPOLL: u32 = 0x02;

/// CPU affinity of the polling thread.
pub const IORING_SETUP_SQ_AFF: u32 = 0x04;

/// The completion queue's size is given.
pub const IORING_SETUP_CQSIZE: u32 = 0x08;

/// Clamp ring sizes to the kernel's maximum.
pub const IORING_SETUP_CLAMP: u32 = 0x10;

/// Share the work queue of an existing ring.
pub const IORING_SETUP_ATTACH_WQ: u32 = 0x20;

/// Every pool buffer is a whole number of pages of this size.
pub const PAGE_SIZE: usize = 4096;

pub const MIN_RING_ENTRIES: u32 = 256;

pub const MAX_RING_ENTRIES: u32 = 8192;

pub const MAX_BUFFER_COUNT: usize = 1024;

pub const MAX_BATCH_TIMEOUT_MS: u64 = 1000;

pub const DEFAULT_SOCKET_PATH: &'static str = "/tmp/mover.sock";

pub const DEFAULT_DB_URL: &'static str = "postgres://localhost/orchestrator";

pub const DEFAULT_RING_ENTRIES: u32 = 4096;

pub const DEFAULT_BUFFER_COUNT: usize = 256;

pub const DEFAULT_BUFFER_SIZE: usize = 4096;

pub const DEFAULT_BATCH_TIMEOUT_MS: u64 = 10;

pub const DEFAULT_MAX_CONNECTIONS: usize = 32;

/// Settings of the mover service. Checked once by `validate`, then only read.
#[derive(Debug, Clone)]
pub struct MoverConfig {
    /// Path of the Unix socket that clients connect to.
    pub socket_path: String,
    /// Connection string of the content store.
    pub db_url: String,
    /// Submission queue depth of the I/O ring.
    pub iouring_entries: u32,
    /// Setup flags of the I/O ring.
    pub iouring_flags: u32,
    /// Number of pool buffers.
    pub buffer_count: usize,
    /// Size of each pool buffer, in bytes.
    pub buffer_size: usize,
    /// Time limit of a batch, in milliseconds.
    pub batch_timeout_ms: u64,
    pub max_connections: usize,
    pub enable_huge_pages: bool,
    pub enable_send_zc: bool,
}

/// The raw text of each setting, as the environment gives it (`None` where
/// the variable is not set).
#[derive(Debug, Clone)]
pub struct MoverEnv {
    pub socket_path: Option<String>,
    pub db_url: Option<String>,
    pub iouring_entries: Option<String>,
    pub iouring_flags: Option<String>,
    pub buffer_count: Option<String>,
    pub buffer_size: Option<String>,
    pub batch_timeout_ms: Option<String>,
    pub max_connections: Option<String>,
    pub enable_huge_pages: Option<String>,
    pub enable_send_zc: Option<String>,
}

/// A setting that is invalid or out of its range.
#[derive(Debug, Clone, PartialEq, Eq)]
pub enum ConfigError {
    EntriesNotPowerOfTwo(u32),
    EntriesOutOfRange(u32),
    BufferSizeNotPageMultiple(usize),
    BufferCountOutOfRange(usize),
    BatchTimeoutOutOfRange(u64),
    SocketPathNotAbsolute(String),
    /// A name in the flag list that names no flag, as it was compared.
    UnknownFlag(String),
}

/// The bit that a flag name stands for; the empty name stands for none.
pub open spec fn flag_bit(name: Seq<char>) -> Option<u32> {
    if name.len() == 0 {
        Some(0)
    } else if name == "iopoll"@ {
        Some(IORING_SETUP_IOPOLL)
    } else if name == "sqpoll"@ {
        Some(IORING_SETUP_SQPOLL)
    } else if name == "sq_aff"@ {
        Some(IORING_SETUP_SQ_AFF)
    } else if name == "cqsize"@ {
        Some(IORING_SETUP_CQSIZE)
    } else if name == "clamp"@ {
        Some(IORING_SETUP_CLAMP)
    } else if name == "attach_wq"@ {
        Some(IORING_SETUP_ATTACH_WQ)
    } else {
        None
    }
}

/// The pieces of `s` between commas, in order; there is one more piece
/// than there are commas.
pub open spec fn split_commas(s: Seq<char>) -> Seq<Seq<char>>
    decreases s.len(),
{
    if s.len() == 0 {
        seq![Seq::empty()]
    } else {
        let p = split_commas(s.drop_last());
        if s.last() == ',' {
            p.push(Seq::empty())
        } else {
            p.update(p.len() - 1, p.last().push(s.last()))
        }
    }
}

/// A piece of a flag list as it is compared with the flag names.
pub open spec fn flag_name(piece: Seq<char>) -> Seq<char> {
    lowercased(trimmed(piece))
}

/// The union of the bits that `pieces` name, or the first name that
/// names no flag.
pub open spec fn flags_of(pieces: Seq<Seq<char>>) -> Result<u32, Seq<char>>
    decreases pieces.len(),
{
    if pieces.len() == 0 {
        Ok(0)
    } else {
        match flags_of(pieces.drop_last()) {
            Err(name) => Err(name),
            Ok(acc) => match flag_bit(flag_name(pieces.last())) {
                Some(b) => Ok(acc | b),
                None => Err(flag_name(pieces.last())),
            },
        }
    }
}

/// The flags that `s` gives: a decimal number as it stands, else a
/// comma-separated list of flag names.
pub open spec fn flags_value(s: Seq<char>) -> Result<u32, Seq<char>> {
    match decimal_value(s, u32::MAX as nat) {
        Some(n) => Ok(n as u32),
        None => flags_of(split_commas(s)),
    }
}

/// The flags that the environment gives; unset, the clamp flag.
pub open spec fn env_flags(v: Option<String>) -> Result<u32, Seq<char>> {
    match v {
        Some(s) => flags_value(s@),
        None => Ok(IORING_SETUP_CLAMP),
    }
}

/// A text setting, or its default where unset.
pub open spec fn setting_text(v: Option<String>, default: Seq<char>) -> Seq<char> {
    match v {
        Some(s) => s@,
        None => default,
    }
}

/// A number setting, or its default where unset or not a decimal number
/// no larger than `max`.
pub open spec fn setting_number(v: Option<String>, max: nat, default: nat) -> nat {
    match v {
        Some(s) => match decimal_value(s@, max) {
            Some(n) => n,
            None => default,
        },
        None => default,
    }
}

/// A switch setting: on exactly where it reads `true` in any case; its
/// default where unset.
pub open spec fn setting_switch(v: Option<String>, default: bool) -> bool {
    match v {
        Some(s) => lowercased(s@) == "true"@,
        None => default,
    }
}

pub open spec fn is_power_of_two(n: nat) -> bool
    decreases n,
{
    if n == 0 {
        false
    } else if n == 1 {
        true
    } else {
        n % 2 == 0 && is_power_of_two(n / 2)
    }
}

/// The first rule that `c` breaks, in the order the rules are checked.
pub open spec fn config_error(c: MoverConfig) -> Option<ConfigError> {
    if !is_power_of_two(c.iouring_entries as nat) {
        Some(ConfigError::EntriesNotPowerOfTwo(c.iouring_entries))
    } else if c.iouring_entries < MIN_RING_ENTRIES || c.iouring_entries > MAX_RING_ENTRIES {
        Some(ConfigError::EntriesOutOfRange(c.iouring_entries))
    } else if c.buffer_size % PAGE_SIZE != 0 {
        Some(ConfigError::BufferSizeNotPageMultiple(c.buffer_size))
    } else if c.buffer_count == 0 || c.buffer_count > MAX_BUFFER_COUNT {
        Some(ConfigError::BufferCountOutOfRange(c.buffer_count))
    } else if c.batch_timeout_ms == 0 || c.batch_timeout_ms > MAX_BATCH_TIMEOUT_MS {
        Some(ConfigError::BatchTimeoutOutOfRange(c.batch_timeout_ms))
    } else if !(c.socket_path@.len() > 0 && c.socket_path@[0] == '/') {
        Some(ConfigError::SocketPathNotAbsolute(c.socket_path))
    } else {
        None
    }
}

/// The names of the flags that a description shows, in its order.
pub open spec fn shown_flags(f: u32) -> Seq<Seq<char>> {
    (if f & IORING_SETUP_IOPOLL != 0 {
        seq!["IOPOLL"@]
    } else {
        Seq::empty()
    }) + (if f & IORING_SETUP_SQPOLL != 0 {
        seq!["SQPOLL"@]
    } else {
        Seq::empty()
    }) + (if f & IORING_SETUP_CLAMP != 0 {
        seq!["CLAMP"@]
    } else {
        Seq::empty()
    }) + (if f & IORING_SETUP_CQSIZE != 0 {
        seq!["CQSIZE"@]
    } else {
        Seq::empty()
    })
}

/// `names` joined by `|`.
pub open spec fn join_bar(names: Seq<Seq<char>>) -> Seq<char>
    decreases names.len(),
{
    if names.len() == 0 {
        Seq::empty()
    } else if names.len() == 1 {
        names[0]
    } else {
        join_bar(names.drop_last()) + "|"@ + names.last()
    }
}

/// How a flag set reads for people: the names shown joined by `|`, or
/// `None` where none is shown.
pub open spec fn flags_text(f: u32) -> Seq<char> {
    if shown_flags(f).len() == 0 {
        "None"@
    } else {
        join_bar(shown_flags(f))
    }
}

/// Adding a name to a `|`-joined list.
pub proof fn lemma_join_bar_push(names: Seq<Seq<char>>, name: Seq<char>)
    ensures
        join_bar(names.push(name)) == if names.len() == 0 {
            name
        } else {
            join_bar(names) + "|"@ + name
        },
{
    assert(names.push(name).drop_last() =~= names);
}

/// The bit that `name` stands for.
fn flag_bit_of(name: &String) -> (r: Option<u32>)
    ensures
        r == flag_bit(name@),
{
    if name.as_str().is_empty() {
        Some(0)
    } else if same_text(name, "iopoll") {
        Some(IORING_SETUP_IOPOLL)
    } else if same_text(name, "sqpoll") {
        Some(IORING_SETUP_SQPOLL)
    } else if same_text(name, "sq_aff") {
        Some(IORING_SETUP_SQ_AFF)
    } else if same_text(name, "cqsize") {
        Some(IORING_SETUP_CQSIZE)
    } else if same_text(name, "clamp") {
        Some(IORING_SETUP_CLAMP)
    } else if same_text(name, "attach_wq") {
        Some(IORING_SETUP_ATTACH_WQ)
    } else {
        None
    }
}

/// The bit that one piece of a flag list names, or the name it was
/// compared as.
fn piece_flag(piece: &str) -> (r: Result<u32, String>)
    ensures
        match flag_bit(flag_name(piece@)) {
            Some(b) => r == Ok::<u32, String>(b),
            None => r matches Err(m) && m@ == flag_name(piece@),
        },
{
    let name = to_lower(trim_str(piece));
    match flag_bit_of(&name) {
        Some(b) => Ok(b),
        None => Err(name),
    }
}

pub proof fn lemma_split_commas_nonempty(s: Seq<char>)
    ensures
        split_commas(s).len() >= 1,
    decreases s.len(),
{
    if s.len() > 0 {
        lemma_split_commas_nonempty(s.drop_last());
    }
}

/// The pieces of `s` before its `k`-th character that a comma closed stay
/// the first pieces of every longer prefix of `s`.
proof fn lemma_split_prefix(s: Seq<char>, k: int, j: int)
    requires
        0 <= k <= j <= s.len(),
    ensures
        ({
            let p = split_commas(s.subrange(0, k)).drop_last();
            let q = split_commas(s.subrange(0, j));
            q.len() >= p.len() + 1 && q.subrange(0, p.len() as int) == p
        }),
    decreases j - k,
{
    let p = split_commas(s.subrange(0, k)).drop_last();
    let q = split_commas(s.subrange(0, j));
    if j == k {
        lemma_split_commas_nonempty(s.subrange(0, k));
        assert(q.subrange(0, p.len() as int) =~= p);
    } else {
        lemma_split_prefix(s, k, j - 1);
        let t = s.subrange(0, j - 1);
        let q0 = split_commas(t);
        assert(s.subrange(0, j).drop_last() =~= t);
        assert(q.subrange(0, p.len() as int) =~= q0.subrange(0, p.len() as int));
    }
}

/// Once some piece names no flag, more pieces after it change nothing.
proof fn lemma_flags_err_prefix(p: Seq<Seq<char>>, q: Seq<Seq<char>>)
    requires
        q.len() >= p.len(),
        q.subrange(0, p.len() as int) == p,
        flags_of(p) is Err,
    ensures
        flags_of(q) == flags_of(p),
    decreases q.len(),
{
    if q.len() == p.len() {
        assert(q =~= p);
    } else {
        assert(q.drop_last().subrange(0, p.len() as int) =~= p);
        lemma_flags_err_prefix(p, q.drop_last());
    }
}

/// A flag list fails on the first piece that names no flag.
proof fn lemma_flags_prefix(s: Seq<char>, i: int, pre: Seq<Seq<char>>)
    requires
        0 <= i < s.len(),
        pre == split_commas(s.subrange(0, i + 1)).drop_last(),
        flags_of(pre) is Err,
    ensures
        flags_of(split_commas(s)) == flags_of(pre),
{
    lemma_split_prefix(s, i + 1, s.len() as int);
    assert(s.subrange(0, s.len() as int) =~= s);
    lemma_flags_err_prefix(pre, split_commas(s));
}

/// The text of a setting, or `default` where unset.
fn env_text(v: &Option<String>, default: &str) -> (r: String)
    ensures
        r@ == setting_text(*v, default@),
{
    match v {
        Some(s) => s.clone(),
        None => String::from_str(default),
    }
}

/// The number a setting gives, or `default` where unset or unreadable.
fn env_number(v: &Option<String>, max: u64, default: u64) -> (r: u64)
    requires
        default <= max,
    ensures
        r == setting_number(*v, max as nat, default as nat),
        r <= max,
{
    match v {
        Some(s) => match parse_decimal(s.as_str(), max) {
            Some(n) => n,
            None => default,
        },
        None => default,
    }
}

/// Whether a switch setting is on; `default` where unset.
fn env_switch(v: &Option<String>, default: bool) -> (r: bool)
    ensures
        r == setting_switch(*v, default),
{
    match v {
        Some(s) => {
            let lower = to_lower(s.as_str());
            same_text(&lower, "true")
        },
        None => default,
    }
}

/// Whether `n` is a power of two.
fn power_of_two(n: u32) -> (r: bool)
    ensures
        r == is_power_of_two(n as nat),
{
    let mut m: u32 = n;
    while m > 1 && m % 2 == 0
        invariant
            is_power_of_two(m as nat) == is_power_of_two(n as nat),
        decreases m,
    {
        m = m / 2;
    }
    m == 1
}

/// `name` added to a `|`-joined list: the list is `name` alone when `first`.
fn add_name(out: &mut String, first: bool, name: &str)
    ensures
        final(out)@ == if first {
            name@
        } else {
            old(out)@ + "|"@ + name@
        },
{
    if first {
        *out = String::from_str(name);
    } else {
        out.append("|");
        out.append(name);
    }
}

impl MoverConfig {
    /// The configuration that the environment gives, each unset or
    /// unreadable number taking its default. Only an unreadable flag list
    /// is an error; ranges are left to `validate`.
    pub fn load_from_env(env: &MoverEnv) -> (r: Result<MoverConfig, ConfigError>)
        ensures
            match env_flags(env.iouring_flags) {
                Err(name) => r matches Err(ConfigError::UnknownFlag(m)) && m@ == name,
                Ok(f) => r matches Ok(c) && c.iouring_flags == f && c.socket_path@ == setting_text(
                    env.socket_path,
                    DEFAULT_SOCKET_PATH@,
                ) && c.db_url@ == setting_text(env.db_url, DEFAULT_DB_URL@) && c.iouring_entries
                    == setting_number(env.iouring_entries, u32::MAX as nat, DEFAULT_RING_ENTRIES as nat)
                    && c.buffer_count == setting_number(
                    env.buffer_count,
                    usize::MAX as nat,
                    DEFAULT_BUFFER_COUNT as nat,
                ) && c.buffer_size == setting_number(
                    env.buffer_size,
                    usize::MAX as nat,
                    DEFAULT_BUFFER_SIZE as nat,
                ) && c.batch_timeout_ms == setting_number(
                    env.batch_timeout_ms,
                    u64::MAX as nat,
                    DEFAULT_BATCH_TIMEOUT_MS as nat,
                ) && c.max_connections == setting_number(
                    env.max_connections,
                    usize::MAX as nat,
                    DEFAULT_MAX_CONNECTIONS as nat,
                ) && c.enable_huge_pages == setting_switch(env.enable_huge_pages, false)
                    && c.enable_send_zc == setting_switch(env.enable_send_zc, true),
            },
    {
        let iouring_flags = match &env.iouring_flags {
            Some(s) => match Self::parse_iouring_flags(s.as_str()) {
                Ok(f) => f,
                Err(e) => return Err(e),
            },
            None => IORING_SETUP_CLAMP,
        };
        let size_max = usize::MAX as u64;
        Ok(MoverConfig {
            socket_path: env_text(&env.socket_path, DEFAULT_SOCKET_PATH),
            db_url: env_text(&env.db_url, DEFAULT_DB_URL),
            iouring_entries: env_number(
                &env.iouring_entries,
                u32::MAX as u64,
                DEFAULT_RING_ENTRIES as u64,
            ) as u32,
            iouring_flags,
            buffer_count: env_number(&env.buffer_count, size_max, DEFAULT_BUFFER_COUNT as u64)
                as usize,
            buffer_size: env_number(&env.buffer_size, size_max, DEFAULT_BUFFER_SIZE as u64)
                as usize,
            batch_timeout_ms: env_number(
                &env.batch_timeout_ms,
                u64::MAX,
                DEFAULT_BATCH_TIMEOUT_MS,
            ),
            max_connections: env_number(
                &env.max_connections,
                size_max,
                DEFAULT_MAX_CONNECTIONS as u64,
            ) as usize,
            enable_huge_pages: env_switch(&env.enable_huge_pages, false),
            enable_send_zc: env_switch(&env.enable_send_zc, true),
        })
    }

    /// The default configuration, which passes `validate`.
    pub fn with_defaults() -> (c: MoverConfig)
        ensures
            c.socket_path@ == DEFAULT_SOCKET_PATH@,
            c.db_url@ == DEFAULT_DB_URL@,
            c.iouring_entries == DEFAULT_RING_ENTRIES,
            c.iouring_flags == IORING_SETUP_CLAMP,
            c.buffer_count == DEFAULT_BUFFER_COUNT,
            c.buffer_size == DEFAULT_BUFFER_SIZE,
            c.batch_timeout_ms == DEFAULT_BATCH_TIMEOUT_MS,
            c.max_connections == DEFAULT_MAX_CONNECTIONS,
            !c.enable_huge_pages,
            c.enable_send_zc,
            config_error(c) is None,
    {
        let c = MoverConfig {
            socket_path: String::from_str(DEFAULT_SOCKET_PATH),
            db_url: String::from_str(DEFAULT_DB_URL),
            iouring_entries: DEFAULT_RING_ENTRIES,
            iouring_flags: IORING_SETUP_CLAMP,
            buffer_count: DEFAULT_BUFFER_COUNT,
            buffer_size: DEFAULT_BUFFER_SIZE,
            batch_timeout_ms: DEFAULT_BATCH_TIMEOUT_MS,
            max_connections: DEFAULT_MAX_CONNECTIONS,
            enable_huge_pages: false,
            enable_send_zc: true,
        };
        proof {
            reveal_with_fuel(is_power_of_two, 14);
            reveal_strlit("/tmp/mover.sock");
        }
        c
    }

    /// `self` if it keeps every rule, else the first rule it breaks: ring
    /// entries a power of two in 256..=8192, buffer size a multiple of the
    /// page size, buffer count in 1..=1024, batch timeout in 1..=1000 ms, and
    /// an absolute socket path.
    pub fn validate(self) -> (r: Result<MoverConfig, ConfigError>)
        ensures
            match config_error(self) {
                None => r == Ok::<MoverConfig, ConfigError>(self),
                Some(e) => r == Err::<MoverConfig, ConfigError>(e),
            },
    {
        if !power_of_two(self.iouring_entries) {
            return Err(ConfigError::EntriesNotPowerOfTwo(self.iouring_entries));
        }
        if self.iouring_entries < MIN_RING_ENTRIES || self.iouring_entries > MAX_RING_ENTRIES {
            return Err(ConfigError::EntriesOutOfRange(self.iouring_entries));
        }
        if self.buffer_size % PAGE_SIZE != 0 {
            return Err(ConfigError::BufferSizeNotPageMultiple(self.buffer_size));
        }
        if self.buffer_count == 0 || self.buffer_count > MAX_BUFFER_COUNT {
            return Err(ConfigError::BufferCountOutOfRange(self.buffer_count));
        }
        if self.batch_timeout_ms == 0 || self.batch_timeout_ms > MAX_BATCH_TIMEOUT_MS {
            return Err(ConfigError::BatchTimeoutOutOfRange(self.batch_timeout_ms));
        }
        let absolute = {
            let p = self.socket_path.as_str();
            p.unicode_len() > 0 && p.get_char(0) == '/'
        };
        if !absolute {
            return Err(ConfigError::SocketPathNotAbsolute(self.socket_path));
        }
        Ok(self)
    }

    /// The setup flags for people: `IOPOLL`, `SQPOLL`, `CLAMP` and `CQSIZE`,
    /// those set, joined by `|`; `None` where none of them is set.
    pub fn flags_description(&self) -> (r: String)
        ensures
            r@ == flags_text(self.iouring_flags),
    {
        let f = self.iouring_flags;
        let mut out = String::new();
        let mut any = false;
        let ghost mut names: Seq<Seq<char>> = Seq::empty();
        if f & IORING_SETUP_IOPOLL != 0 {
            add_name(&mut out, !any, "IOPOLL");
            proof {
                lemma_join_bar_push(names, "IOPOLL"@);
                names = names.push("IOPOLL"@);
            }
            any = true;
        }
        if f & IORING_SETUP_SQPOLL != 0 {
            add_name(&mut out, !any, "SQPOLL");
            proof {
                lemma_join_bar_push(names, "SQPOLL"@);
                names = names.push("SQPOLL"@);
            }
            any = true;
        }
        if f & IORING_SETUP_CLAMP != 0 {
            add_name(&mut out, !any, "CLAMP");
            proof {
                lemma_join_bar_push(names, "CLAMP"@);
                names = names.push("CLAMP"@);
            }
            any = true;
        }
        if f & IORING_SETUP_CQSIZE != 0 {
            add_name(&mut out, !any, "CQSIZE");
            proof {
                lemma_join_bar_push(names, "CQSIZE"@);
                names = names.push("CQSIZE"@);
            }
            any = true;
        }
        proof {
            assert(names =~= shown_flags(f));
        }
        if !any {
            String::from_str("None")
        } else {
            out
        }
    }

    /// Reads the ring's setup flags from `s`: a decimal number is taken as
    /// it stands; otherwise `s` is a comma-separated list of the names
    /// `iopoll`, `sqpoll`, `sq_aff`, `cqsize`, `clamp` and `attach_wq`, in
    /// any case and with white space around them, empty pieces ignored.
    /// The first other name is an error.
    pub fn parse_iouring_flags(s: &str) -> (r: Result<u32, ConfigError>)
        ensures
            match flags_value(s@) {
                Ok(f) => r == Ok::<u32, ConfigError>(f),
                Err(name) => r matches Err(ConfigError::UnknownFlag(m)) && m@ == name,
            },
    {
        if let Some(n) = parse_decimal(s, 0xFFFF_FFFF) {
            return Ok(n as u32);
        }
        let n = s.unicode_len();
        let mut flags: u32 = 0;
        let mut start: usize = 0;
        let mut i: usize = 0;
        let ghost mut done: Seq<Seq<char>> = Seq::empty();
        proof {
            assert(s@.subrange(0, 0) =~= Seq::<char>::empty());
            assert(split_commas(Seq::<char>::empty()) =~= done.push(s@.subrange(0, 0)));
        }
        while i < n
            invariant
                start <= i <= n,
                n == s@.len(),
                split_commas(s@.subrange(0, i as int)) == done.push(s@.subrange(start as int, i as int)),
                flags_of(done) == Ok::<u32, Seq<char>>(flags),
                decimal_value(s@, u32::MAX as nat) is None,
            decreases n - i,
        {
            let c = s.get_char(i);
            let ghost before = s@.subrange(0, i as int);
            let ghost after = s@.subrange(0, i + 1);
            proof {
                assert(after.drop_last() =~= before);
                assert(after.last() == c);
            }
            if c == ',' {
                let piece = s.substring_char(start, i);
                match piece_flag(piece) {
                    Ok(b) => {
                        proof {
                            assert(done.push(piece@).drop_last() =~= done);
                        }
                        flags = flags | b;
                    },
                    Err(name) => {
                        proof {
                            assert(done.push(piece@).drop_last() =~= done);
                            assert(split_commas(after) =~= done.push(piece@).push(Seq::empty()));
                            assert(split_commas(after).drop_last() =~= done.push(piece@));
                            lemma_flags_prefix(s@, i as int, done.push(piece@));
                        }
                        return Err(ConfigError::UnknownFlag(name));
                    },
                }
                proof {
                    done = done.push(piece@);
                    assert(s@.subrange(i + 1, i + 1) =~= Seq::<char>::empty());
                    assert(split_commas(after) =~= done.push(s@.subrange(i + 1, i + 1)));
                }
                start = i + 1;
            } else {
                proof {
                    let p = done.push(s@.subrange(start as int, i as int));
                    assert(s@.subrange(start as int, i as int).push(c) =~= s@.subrange(
                        start as int,
                        i + 1,
                    ));
                    assert(p.update(p.len() - 1, p.last().push(c)) =~= done.push(
                        s@.subrange(start as int, i + 1),
                    ));
                }
            }
            i = i + 1;
        }
        let piece = s.substring_char(start, n);
        proof {
            assert(s@.subrange(0, n as int) =~= s@);
            assert(done.push(piece@).drop_last() =~= done);
        }
        match piece_flag(piece) {
            Ok(b) => Ok(flags | b),
            Err(name) => Err(ConfigError::UnknownFlag(name)),
        }
    }
}

} // verus!
