//! Configuration of an exhaustive exploration run, with checkpoints.
use vstd::prelude::*;
use vstd::string::StrSliceExecFns;

verus! {

/// Max number of threads to check unless configured otherwise.
pub const DEFAULT_MAX_THREADS: usize = 4;

/// Maximum amount of memory for the execution metadata unless configured
/// otherwise.
pub const DEFAULT_MAX_MEMORY: usize = 67108864;

/// Iterations between two checkpoints unless configured otherwise.
pub const DEFAULT_CHECKPOINT_INTERVAL: usize = 100000;

/// What runtime runs the model's threads.
#[derive(Debug, Clone, Copy, PartialEq, Eq, Structural)]
pub enum Runtime {
    /// One operating-system thread per model thread.
    Thread,
    /// One generator (stackful coroutine) per model thread.
    Generator,
}

impl Default for Runtime {
    /// The generator runtime.
    fn default() -> (r: Runtime)
        ensures
            r == Runtime::Generator,
    {
        Runtime::Generator
    }
}

/// Why a configuration from the environment is refused.
#[derive(Debug, Clone, Copy, PartialEq, Eq, Structural)]
pub enum ConfigError {
    /// The checkpoint interval is not a decimal number that fits a `usize`.
    InvalidCheckpointInterval,
    /// The fringe runtime was asked for; it is not compiled in.
    FringeNotCompiled,
    /// The runtime's name is unknown.
    InvalidRuntime,
}

/// The value of the decimal digits `s`.
pub open spec fn digits_value(s: Seq<char>) -> int
    decreases s.len(),
{
    if s.len() == 0 {
        0
    } else {
        digits_value(s.drop_last()) * 10 + (s.last() as int - '0' as int)
    }
}

/// Every character of `s` is a decimal digit.
pub open spec fn all_digits(s: Seq<char>) -> bool {
    forall|i: int| 0 <= i < s.len() ==> '0' <= #[trigger] s[i] <= '9'
}

/// The `usize` written in `s`: an optional `+` followed by at least one
/// decimal digit, of a value that fits. This is how `usize` parses from a
/// string.
pub open spec fn decimal(s: Seq<char>) -> Option<usize> {
    let d = if s.len() > 0 && s[0] == '+' {
        s.drop_first()
    } else {
        s
    };
    if d.len() > 0 && all_digits(d) && digits_value(d) <= usize::MAX {
        Some(digits_value(d) as usize)
    } else {
        None
    }
}

/// The runtime named `name`, or why none is.
pub open spec fn runtime_named(name: Seq<char>) -> Result<Runtime, ConfigError> {
    if name == "thread"@ {
        Ok(Runtime::Thread)
    } else if name == "generator"@ {
        Ok(Runtime::Generator)
    } else if name == "fringe"@ {
        Err(ConfigError::FringeNotCompiled)
    } else {
        Err(ConfigError::InvalidRuntime)
    }
}

proof fn lemma_digits_value_bound(s: Seq<char>)
    requires
        all_digits(s),
    ensures
        0 <= digits_value(s),
        s.len() > 0 ==> digits_value(s.drop_last()) <= digits_value(s),
    decreases s.len(),
{
    if s.len() > 0 {
        assert(all_digits(s.drop_last()));
        lemma_digits_value_bound(s.drop_last());
        if s.len() > 1 {
            assert(all_digits(s.drop_last().drop_last()));
        }
    }
}

/// Parses a `usize` written in decimal, as `str::parse` does.
pub fn parse_usize(s: &str) -> (r: Option<usize>)
    ensures
        r == decimal(s@),
{
    let n = s.unicode_len();
    let mut start: usize = 0;
    if n > 0 && s.get_char(0) == '+' {
        start = 1;
    }
    let ghost d = s@.subrange(start as int, n as int);
    proof {
        if s@.len() > 0 && s@[0] == '+' {
            assert(d =~= s@.drop_first());
        } else {
            assert(d =~= s@);
        }
    }
    if start == n {
        return None;
    }
    let mut value: usize = 0;
    let mut i: usize = start;
    while i < n
        invariant
            start <= i <= n,
            n == s@.len(),
            d == s@.subrange(start as int, n as int),
            d == (if s@.len() > 0 && s@[0] == '+' {
                s@.drop_first()
            } else {
                s@
            }),
            all_digits(d.take(i - start)),
            value == digits_value(d.take(i - start)),
        decreases n - i,
    {
        let c = s.get_char(i);
        assert(d[i - start] == c);
        if c < '0' || c > '9' {
            proof {
                assert(!('0' <= d[i - start] <= '9'));
                assert(!all_digits(d));
            }
            return None;
        }
        let digit = (c as u32 - 48u32) as usize;
        proof {
            assert(d.take(i - start + 1).drop_last() =~= d.take(i - start));
            assert(all_digits(d.take(i - start + 1)));
            assert(digits_value(d.take(i - start + 1)) == value * 10 + digit);
            lemma_prefix_value(d, i - start + 1);
        }
        match value.checked_mul(10) {
            Some(v) => match v.checked_add(digit) {
                Some(w) => {
                    value = w;
                },
                None => {
                    return None;
                },
            },
            None => {
                return None;
            },
        }
        i = i + 1;
    }
    proof {
        assert(d.take(i - start) =~= d);
    }
    Some(value)
}

/// The value of a prefix of digits is at most the value of all of them.
proof fn lemma_prefix_value(d: Seq<char>, k: int)
    requires
        0 <= k <= d.len(),
        all_digits(d.take(k)),
    ensures
        all_digits(d) ==> digits_value(d.take(k)) <= digits_value(d),
    decreases d.len() - k,
{
    if k < d.len() && all_digits(d) {
        assert(all_digits(d.take(k + 1)));
        lemma_prefix_value(d, k + 1);
        assert(d.take(k + 1).drop_last() =~= d.take(k));
        lemma_digits_value_bound(d.take(k + 1));
    } else if k == d.len() {
        assert(d.take(k) =~= d);
    }
}

/// Whether the two strings hold the same text.
pub fn same_text(a: &str, b: &str) -> (r: bool)
    ensures
        r == (a@ == b@),
{
    let x = a.as_bytes();
    let y = b.as_bytes();
    proof {
        assert(x@ == vstd::utf8::encode_utf8(a@));
        assert(y@ == vstd::utf8::encode_utf8(b@));
        vstd::utf8::encode_utf8_decode_utf8(a@);
        vstd::utf8::encode_utf8_decode_utf8(b@);
    }
    if x.len() != y.len() {
        proof {
            if a@ == b@ {
                assert(x@ == y@);
            }
        }
        return false;
    }
    let mut i: usize = 0;
    while i < x.len()
        invariant
            x@.len() == y@.len(),
            x@ == vstd::utf8::encode_utf8(a@),
            y@ == vstd::utf8::encode_utf8(b@),
            i <= x@.len(),
            forall|k: int| 0 <= k < i ==> x@[k] == y@[k],
        decreases x@.len() - i,
    {
        if x[i] != y[i] {
            proof {
                if a@ == b@ {
                    assert(x@ == y@);
                }
            }
            return false;
        }
        i = i + 1;
    }
    assert(x@ =~= y@);
    true
}

impl Runtime {
    /// The runtime of the name `name`, as the variable `LOOM_RUNTIME` gives
    /// it.
    pub fn from_name(name: &str) -> (r: Result<Runtime, ConfigError>)
        ensures
            r == runtime_named(name@),
    {
        if same_text(name, "thread") {
            Ok(Runtime::Thread)
        } else if same_text(name, "generator") {
            Ok(Runtime::Generator)
        } else if same_text(name, "fringe") {
            Err(ConfigError::FringeNotCompiled)
        } else {
            Err(ConfigError::InvalidRuntime)
        }
    }
}

/// Configures an exhaustive exploration of a model.
#[derive(Debug)]
pub struct Builder {
    /// Max number of threads to check as part of the execution. This should
    /// be set as low as possible.
    pub max_threads: usize,
    /// Maximum amount of memory that can be consumed by the associated
    /// metadata.
    pub max_memory: usize,
    /// When doing an exhaustive fuzz, uses the file to store and load the
    /// fuzz progress
    pub checkpoint_file: Option<String>,
    /// How often to write the checkpoint file
    pub checkpoint_interval: usize,
    /// What runtime to use
    pub runtime: Runtime,
    /// Log execution output to stdout.
    pub log: bool,
}

impl Builder {
    /// A builder configured from the environment: `checkpoint_interval` is
    /// the value of `LOOM_CHECKPOINT_INTERVAL`, `log` whether `LOOM_LOG` is
    /// set, and `runtime` the value of `LOOM_RUNTIME`. The interval must be
    /// a decimal `usize` and the runtime one that is compiled in (see
    /// `parse_usize` and `Runtime::from_name`).
    pub fn new(checkpoint_interval: Option<&str>, log: bool, runtime: Option<&str>) -> (b: Builder)
        requires
            checkpoint_interval matches Some(v) ==> decimal(v@) is Some,
            runtime matches Some(name) ==> runtime_named(name@) is Ok,
        ensures
            b.max_threads == DEFAULT_MAX_THREADS,
            b.max_memory == DEFAULT_MAX_MEMORY,
            b.checkpoint_file is None,
            b.checkpoint_interval == match checkpoint_interval {
                Some(v) => decimal(v@)->0,
                None => DEFAULT_CHECKPOINT_INTERVAL,
            },
            b.log == log,
            runtime matches Some(name) ==> runtime_named(name@) == Ok::<Runtime, ConfigError>(b.runtime),
            runtime is None ==> b.runtime == Runtime::Generator,
    {
        let interval = match checkpoint_interval {
            Some(v) => match parse_usize(v) {
                Some(n) => n,
                None => DEFAULT_CHECKPOINT_INTERVAL,
            },
            None => DEFAULT_CHECKPOINT_INTERVAL,
        };
        let rt = match runtime {
            Some(name) => match Runtime::from_name(name) {
                Ok(rt) => rt,
                Err(_) => Runtime::Generator,
            },
            None => Runtime::Generator,
        };
        Builder {
            max_threads: DEFAULT_MAX_THREADS,
            max_memory: DEFAULT_MAX_MEMORY,
            checkpoint_file: None,
            checkpoint_interval: interval,
            runtime: rt,
            log,
        }
    }

    /// Stores and loads the exploration's progress in the file `file`.
    pub fn checkpoint_file(&mut self, file: &str) -> (r: &mut Self)
        ensures
            r.checkpoint_file matches Some(f) && f@ == file@,
            r.max_threads == old(self).max_threads,
            r.max_memory == old(self).max_memory,
            r.checkpoint_interval == old(self).checkpoint_interval,
            r.runtime == old(self).runtime,
            r.log == old(self).log,
            *final(self) == *final(r),
    {
        self.checkpoint_file = Some(file.to_owned());
        self
    }

    /// One iteration of the exploration loop: after `done` iterations, the
    /// number of the next one, and whether it reports its progress and
    /// stores the checkpoint, which it does every `checkpoint_interval`
    /// iterations.
    pub fn iteration(&self, done: usize) -> (r: (usize, bool))
        requires
            self.checkpoint_interval > 0,
            done < usize::MAX,
        ensures
            r.0 == done + 1,
            r.1 == ((done + 1) % (self.checkpoint_interval as int) == 0),
    {
        let i = done + 1;
        (i, i % self.checkpoint_interval == 0)
    }
}

} // verus!
