//! Query-tier configuration: the plain settings record, its accessors, and
//! the parser for the engine-options flag (`KEY:VALUE` pairs separated by
//! commas).

use vstd::prelude::*;
use vstd::string::StrSliceExecFns;
use vstd::string::StringExecFns;

verus! {

/// Settings of the query tier. All sizes are in bytes.
///
/// `num_query_threads` of zero means "use one thread per core";
/// `datafusion_config` holds the engine options as parsed key/value pairs
/// in the order given, keys distinct.
#[derive(Clone, Debug)]
pub struct QuerierConfig {
    pub num_query_threads: usize,
    pub exec_mem_pool_bytes: usize,
    pub ingester_addresses: Vec<crate::ingester_address::IngesterAddress>,
    pub ram_pool_metadata_bytes: usize,
    pub ram_pool_data_bytes: usize,
    pub max_concurrent_queries: usize,
    pub ingester_circuit_breaker_threshold: u64,
    pub datafusion_config: Vec<(String, String)>,
}

impl QuerierConfig {
    /// The configured number of query threads, `None` meaning "one per
    /// core".
    pub fn num_query_threads(&self) -> (r: Option<usize>)
        ensures
            r == if self.num_query_threads == 0 {
                Option::<usize>::None
            } else {
                Option::<usize>::Some(self.num_query_threads)
            },
    {
        if self.num_query_threads == 0 {
            None
        } else {
            Some(self.num_query_threads)
        }
    }

    /// Size of the RAM cache pool for metadata in bytes.
    pub fn ram_pool_metadata_bytes(&self) -> (r: usize)
        ensures
            r == self.ram_pool_metadata_bytes,
    {
        self.ram_pool_metadata_bytes
    }

    /// Size of the RAM cache pool for payload in bytes.
    pub fn ram_pool_data_bytes(&self) -> (r: usize)
        ensures
            r == self.ram_pool_data_bytes,
    {
        self.ram_pool_data_bytes
    }

    /// Number of queries allowed to run concurrently.
    pub fn max_concurrent_queries(&self) -> (r: usize)
        ensures
            r == self.max_concurrent_queries,
    {
        self.max_concurrent_queries
    }
}

/// The whitespace the option parser strips around tokens.
pub open spec fn is_ws(c: char) -> bool {
    c == ' ' || c == '\t' || c == '\n' || c == '\r'
}

/// First index at or after `i`, and before `end`, holding `c`.
pub open spec fn spec_find(s: Seq<char>, c: char, i: int, end: int) -> Option<int>
    decreases end - i,
{
    if i >= end {
        None
    } else if s[i] == c {
        Some(i)
    } else {
        spec_find(s, c, i + 1, end)
    }
}

/// Start of the range `[a, b)` after stripping leading whitespace.
pub open spec fn spec_trim_lo(s: Seq<char>, a: int, b: int) -> int
    decreases b - a,
{
    if a < b && is_ws(s[a]) {
        spec_trim_lo(s, a + 1, b)
    } else {
        a
    }
}

/// End of the range `[a, b)` after stripping trailing whitespace.
pub open spec fn spec_trim_hi(s: Seq<char>, a: int, b: int) -> int
    decreases b - a,
{
    if a < b && is_ws(s[b - 1]) {
        spec_trim_hi(s, a, b - 1)
    } else {
        b
    }
}

/// Result of parsing the engine-options flag.
pub ghost enum DfParse {
    /// The pairs, in the order given.
    Pairs(Seq<(Seq<char>, Seq<char>)>),
    /// Some comma-separated part holds no colon.
    BadPair,
    /// A key appears twice; the offending key.
    DupKey(Seq<char>),
}

/// Whether `key` appears among the already-parsed pairs.
pub open spec fn spec_has_key(acc: Seq<(Seq<char>, Seq<char>)>, key: Seq<char>) -> bool {
    exists|p: int| 0 <= p < acc.len() && (#[trigger] acc[p]).0 == key
}

/// Parses the comma-separated parts of `s` from position `i` to `end`,
/// having already collected `acc`: each part is cut at its first colon, and
/// key and value are trimmed.
pub open spec fn spec_parse_parts(
    s: Seq<char>,
    i: int,
    end: int,
    acc: Seq<(Seq<char>, Seq<char>)>,
) -> DfParse
    decreases end - i,
{
    let pe_raw = match spec_find(s, ',', i, end) {
        Some(j) => j,
        None => end,
    };
    let part_end = if i <= pe_raw && pe_raw < end {
        pe_raw
    } else {
        end
    };
    match spec_find(s, ':', i, part_end) {
        None => DfParse::BadPair,
        Some(colon) => {
            let ka = spec_trim_lo(s, i, colon);
            let key = s.subrange(ka, spec_trim_hi(s, ka, colon));
            let va = spec_trim_lo(s, colon + 1, part_end);
            let val = s.subrange(va, spec_trim_hi(s, va, part_end));
            if spec_has_key(acc, key) {
                DfParse::DupKey(key)
            } else if part_end == end {
                DfParse::Pairs(acc.push((key, val)))
            } else {
                spec_parse_parts(s, part_end + 1, end, acc.push((key, val)))
            }
        },
    }
}

/// The engine-options flag as a whole: the trimmed input is either empty or
/// a comma-separated list of colon-cut pairs.
pub open spec fn spec_parse_datafusion_config(s: Seq<char>) -> DfParse {
    let lo = spec_trim_lo(s, 0, s.len() as int);
    let hi = spec_trim_hi(s, lo, s.len() as int);
    if lo >= hi {
        DfParse::Pairs(Seq::empty())
    } else {
        spec_parse_parts(s, lo, hi, Seq::empty())
    }
}

/// Why the engine-options flag was rejected.
#[derive(Debug)]
pub enum DatafusionConfigError {
    /// A part between commas holds no colon; carries the trimmed input.
    InvalidKeyValuePair { input: String },
    /// A key appears twice; carries the key.
    DuplicateKey { key: String },
}

impl DatafusionConfigError {
    /// The human-readable message, phrased as the flag's users know it.
    pub fn message(&self) -> (r: String)
        ensures
            r@ == match self {
                DatafusionConfigError::InvalidKeyValuePair { input } =>
                    "Invalid key value pair - expected 'KEY:VALUE' got '"@ + input@ + "'"@,
                DatafusionConfigError::DuplicateKey { key } => "key '"@ + key@
                    + "' passed multiple times"@,
            },
    {
        match self {
            DatafusionConfigError::InvalidKeyValuePair { input } => {
                let mut m = String::from_str("Invalid key value pair - expected 'KEY:VALUE' got '");
                m.append(input.as_str());
                m.append("'");
                m
            },
            DatafusionConfigError::DuplicateKey { key } => {
                let mut m = String::from_str("key '");
                m.append(key.as_str());
                m.append("' passed multiple times");
                m
            },
        }
    }
}

/// The parsed pairs seen as sequences of characters.
pub open spec fn pairs_view(v: Seq<(String, String)>) -> Seq<(Seq<char>, Seq<char>)> {
    Seq::new(v.len(), |p: int| (v[p].0@, v[p].1@))
}

/// Executable twin of `spec_find`.
fn find_char(s: &str, c: char, i: usize, end: usize) -> (r: Option<usize>)
    requires
        i <= end <= s@.len(),
    ensures
        match r {
            None => spec_find(s@, c, i as int, end as int) is None,
            Some(j) => spec_find(s@, c, i as int, end as int) == Some(j as int) && i <= j < end,
        },
    decreases end - i,
{
    if i >= end {
        None
    } else if s.get_char(i) == c {
        Some(i)
    } else {
        find_char(s, c, i + 1, end)
    }
}

/// Executable twin of `spec_trim_lo`.
fn trim_lo(s: &str, a: usize, b: usize) -> (r: usize)
    requires
        a <= b <= s@.len(),
    ensures
        r as int == spec_trim_lo(s@, a as int, b as int),
        a <= r <= b,
    decreases b - a,
{
    if a < b {
        let c = s.get_char(a);
        if c == ' ' || c == '\t' || c == '\n' || c == '\r' {
            return trim_lo(s, a + 1, b);
        }
    }
    a
}

/// Executable twin of `spec_trim_hi`.
fn trim_hi(s: &str, a: usize, b: usize) -> (r: usize)
    requires
        a <= b <= s@.len(),
    ensures
        r as int == spec_trim_hi(s@, a as int, b as int),
        a <= r <= b,
    decreases b - a,
{
    if a < b {
        let c = s.get_char(b - 1);
        if c == ' ' || c == '\t' || c == '\n' || c == '\r' {
            return trim_hi(s, a, b - 1);
        }
    }
    b
}

/// Whether `key` equals the first component of some collected pair.
fn has_key(acc: &Vec<(String, String)>, key: &str) -> (r: bool)
    ensures
        r == spec_has_key(pairs_view(acc@), key@),
{
    let n = acc.len();
    let mut p: usize = 0;
    while p < n
        invariant
            p <= n,
            n == acc@.len(),
            forall|q: int| 0 <= q < p ==> (#[trigger] pairs_view(acc@)[q]).0 != key@,
        decreases n - p,
    {
        let eq = crate::strings::str_eq(acc[p].0.as_str(), key);
        if eq {
            proof {
                assert(pairs_view(acc@)[p as int].0 == key@);
            }
            return true;
        }
        p = p + 1;
    }
    false
}

/// Parses the engine-options flag: a comma-separated list of `KEY:VALUE`
/// pairs with whitespace allowed around keys and values, the empty (or
/// all-whitespace) string meaning no options. Only the first colon of a
/// part separates key from value; a part without a colon, or a repeated
/// key, is rejected.
pub fn parse_datafusion_config(s: &str) -> (r: Result<
    Vec<(String, String)>,
    DatafusionConfigError,
>)
    ensures
        match r {
            Ok(v) => spec_parse_datafusion_config(s@) == DfParse::Pairs(pairs_view(v@)),
            Err(DatafusionConfigError::InvalidKeyValuePair { input }) => {
                &&& spec_parse_datafusion_config(s@) is BadPair
                &&& input@ == s@.subrange(
                    spec_trim_lo(s@, 0, s@.len() as int),
                    spec_trim_hi(s@, spec_trim_lo(s@, 0, s@.len() as int), s@.len() as int),
                )
            },
            Err(DatafusionConfigError::DuplicateKey { key }) => spec_parse_datafusion_config(s@)
                == DfParse::DupKey(key@),
        },
{
    let n = s.unicode_len();
    let lo = trim_lo(s, 0, n);
    let hi = trim_hi(s, lo, n);
    if lo >= hi {
        proof {
            assert(pairs_view(Seq::<(String, String)>::empty()) =~= Seq::<(Seq<char>, Seq<char>)>::empty());
        }
        return Ok(Vec::new());
    }
    let mut acc: Vec<(String, String)> = Vec::new();
    let mut i: usize = lo;
    proof {
        assert(pairs_view(acc@) =~= Seq::<(Seq<char>, Seq<char>)>::empty());
    }
    loop
        invariant
            lo <= i <= hi <= s@.len(),
            lo as int == spec_trim_lo(s@, 0, s@.len() as int),
            hi as int == spec_trim_hi(s@, lo as int, s@.len() as int),
            lo < hi,
            spec_parse_parts(s@, i as int, hi as int, pairs_view(acc@))
                == spec_parse_datafusion_config(s@),
        decreases hi - i,
    {
        let part_end = match find_char(s, ',', i, hi) {
            Some(j) => j,
            None => hi,
        };
        match find_char(s, ':', i, part_end) {
            None => {
                let input = s.substring_char(lo, hi).to_owned();
                return Err(DatafusionConfigError::InvalidKeyValuePair { input });
            },
            Some(colon) => {
                let ka = trim_lo(s, i, colon);
                let kb = trim_hi(s, ka, colon);
                let va = trim_lo(s, colon + 1, part_end);
                let vb = trim_hi(s, va, part_end);
                let key = s.substring_char(ka, kb).to_owned();
                let val = s.substring_char(va, vb).to_owned();
                if has_key(&acc, key.as_str()) {
                    return Err(DatafusionConfigError::DuplicateKey { key });
                }
                let ghost old_acc = pairs_view(acc@);
                acc.push((key, val));
                proof {
                    assert(pairs_view(acc@) =~= old_acc.push((key@, val@)));
                }
                if part_end == hi {
                    return Ok(acc);
                }
                i = part_end + 1;
            },
        }
    }
}

} // verus!
