//! The plugin's runtime configuration and the parsing of its numeric
//! values. Reading the configuration file itself is I/O and happens
//! outside the library; the values found there are handed in as plain
//! strings.

use vstd::prelude::*;

verus! {

/// All of the runtime configuration.
#[derive(Debug)]
pub struct Config {
    /// The DER-encoded RSA public key used to check tokens, if one is
    /// configured. With no key, all joins and kicks are allowed.
    pub auth_key: Option<Vec<u8>>,

    /// The largest number of users a room may hold; 0 means unlimited.
    pub max_room_size: usize,

    /// The largest number of publishing users the server may hold; 0 means
    /// unlimited.
    pub max_ccu: usize,

    /// How many message worker threads to run; 0 means one per host CPU.
    pub message_threads: usize,
}

impl Default for Config {
    /// The configuration used when no file is readable: no key, no
    /// effective limits, one worker per CPU.
    fn default() -> (r: Self)
        ensures
            r.auth_key is None,
            r.max_room_size == usize::MAX,
            r.max_ccu == usize::MAX,
            r.message_threads == 0,
    {
        Self {
            auth_key: None,
            max_room_size: usize::MAX,
            max_ccu: usize::MAX,
            message_threads: 0,
        }
    }
}

/// The numeric value of a run of decimal digits.
pub open spec fn decimal_value(s: Seq<char>) -> int
    decreases s.len(),
{
    if s.len() == 0 {
        0
    } else {
        decimal_value(s.drop_last()) * 10 + (s.last() as int - '0' as int)
    }
}

/// Whether every character of `s` is a decimal digit.
pub open spec fn all_digits(s: Seq<char>) -> bool {
    forall|i: int| 0 <= i < s.len() ==> '0' <= #[trigger] s[i] && s[i] <= '9'
}

proof fn lemma_decimal_nonneg(s: Seq<char>)
    requires
        all_digits(s),
    ensures
        decimal_value(s) >= 0,
    decreases s.len(),
{
    if s.len() > 0 {
        assert(all_digits(s.drop_last()));
        lemma_decimal_nonneg(s.drop_last());
        assert('0' <= s[s.len() - 1] && s[s.len() - 1] <= '9');
    }
}

/// Parses a non-empty run of decimal digits as a `usize`. Returns `None`
/// for an empty text, a text with a non-digit, or a value too large to
/// hold.
pub fn parse_usize(s: &str) -> (r: Option<usize>)
    ensures
        r matches Some(v) ==> (s@.len() > 0 && all_digits(s@) && v == decimal_value(s@)),
        r is None ==> (s@.len() == 0 || !all_digits(s@) || decimal_value(s@) > usize::MAX),
{
    let n = s.unicode_len();
    if n == 0 {
        return None;
    }
    let mut acc: usize = 0;
    let mut i: usize = 0;
    while i < n
        invariant
            n == s@.len(),
            i <= n,
            all_digits(s@.take(i as int)),
            acc == decimal_value(s@.take(i as int)),
        decreases n - i,
    {
        let c = s.get_char(i);
        if !('0' <= c && c <= '9') {
            proof {
                assert(!all_digits(s@));
            }
            return None;
        }
        let d: usize = (c as u32 as usize) - ('0' as u32 as usize);
        proof {
            assert(d == c as int - '0' as int);
            assert(s@.take(i as int + 1).drop_last() =~= s@.take(i as int));
            assert(s@.take(i as int + 1).last() == s@[i as int]);
        }
        if acc > (usize::MAX - d) / 10 {
            proof {
                // the prefix already overflows, and more digits only grow
                // the value
                assert(acc * 10 + d > usize::MAX) by (nonlinear_arith)
                    requires
                        acc > (usize::MAX - d) / 10,
                        d <= 9,
                ;
                if all_digits(s@) {
                    lemma_decimal_grows(s@, i as int + 1);
                    assert(decimal_value(s@.take(i as int + 1)) == acc * 10 + d);
                }
            }
            return None;
        }
        proof {
            assert(acc * 10 + d <= usize::MAX) by (nonlinear_arith)
                requires
                    acc <= (usize::MAX - d) / 10,
                    d <= 9,
            ;
        }
        acc = acc * 10 + d;
        i = i + 1;
    }
    proof {
        assert(s@.take(n as int) =~= s@);
    }
    Some(acc)
}

/// A longer digit prefix never shrinks the value: whatever a prefix is
/// worth, the whole text is worth at least as much.
proof fn lemma_decimal_grows(s: Seq<char>, i: int)
    requires
        0 <= i <= s.len(),
        all_digits(s),
    ensures
        decimal_value(s) >= decimal_value(s.take(i)),
    decreases s.len() - i,
{
    if i == s.len() {
        assert(s.take(i) =~= s);
    } else {
        lemma_decimal_grows(s, i + 1);
        let t = s.take(i + 1);
        assert(t.drop_last() =~= s.take(i));
        assert(t.last() == s[i]);
        assert(all_digits(s.take(i)));
        lemma_decimal_nonneg(s.take(i));
        assert(decimal_value(t) == decimal_value(s.take(i)) * 10 + (s[i] as int - '0' as int));
        assert(decimal_value(s.take(i)) * 10 >= decimal_value(s.take(i))) by (nonlinear_arith)
            requires
                decimal_value(s.take(i)) >= 0,
        ;
    }
}

/// The value a configuration entry contributes: the digits' value when the
/// entry is present, well-formed, and in range, else the default.
pub open spec fn spec_config_value(text: Option<Seq<char>>, default_value: usize) -> usize {
    match text {
        None => default_value,
        Some(t) => if t.len() > 0 && all_digits(t) && decimal_value(t) <= usize::MAX {
            decimal_value(t) as usize
        } else {
            default_value
        },
    }
}

/// Reads one numeric configuration entry, applying the default when the
/// entry is absent or malformed.
pub fn config_value(text: Option<&str>, default_value: usize) -> (r: usize)
    ensures
        r == spec_config_value(
            match text {
                None => None,
                Some(t) => Some(t@),
            },
            default_value,
        ),
{
    match text {
        None => default_value,
        Some(t) => match parse_usize(t) {
            Some(v) => v,
            None => default_value,
        },
    }
}

impl Config {
    /// Builds the configuration from the values found in the configuration
    /// file's general section, applying the documented defaults.
    pub fn from_entries(
        auth_key: Option<Vec<u8>>,
        max_room_size: Option<&str>,
        max_ccu: Option<&str>,
        message_threads: Option<&str>,
    ) -> (r: Config)
        ensures
            r.auth_key == auth_key,
            r.max_room_size == spec_config_value(
                match max_room_size {
                    None => None,
                    Some(t) => Some(t@),
                },
                usize::MAX,
            ),
            r.max_ccu == spec_config_value(
                match max_ccu {
                    None => None,
                    Some(t) => Some(t@),
                },
                usize::MAX,
            ),
            r.message_threads == spec_config_value(
                match message_threads {
                    None => None,
                    Some(t) => Some(t@),
                },
                0,
            ),
    {
        Config {
            auth_key,
            max_room_size: config_value(max_room_size, usize::MAX),
            max_ccu: config_value(max_ccu, usize::MAX),
            message_threads: config_value(message_threads, 0),
        }
    }
}

} // verus!
