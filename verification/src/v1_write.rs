//! Parsing of write requests in the original single-tenancy flavour: the
//! query string names a database, an optional precision and an optional
//! retention policy, and neither database nor policy may contain the
//! reserved `/` that separates them in derived namespace names.

use vstd::prelude::*;
use vstd::string::StrSliceExecFns;
use vstd::string::StringExecFns;

use crate::querier::pairs_view;

verus! {

/// What `serde_urlencoded` decodes a query string into: `None` when the
/// string is not valid form encoding, otherwise its key/value pairs in
/// order. The result depends on the characters alone.
pub uninterp spec fn form_pairs_of(q: Seq<char>) -> Option<Seq<(Seq<char>, Seq<char>)>>;

/// Relies on `serde_urlencoded::from_str`: decodes a form-urlencoded query
/// into its key/value pairs; the error text is the decoder's description.
#[verifier::external_body]
fn decode_form_pairs(q: &str) -> (r: Result<Vec<(String, String)>, String>)
    ensures
        match r {
            Ok(v) => form_pairs_of(q@) == Some(pairs_view(v@)),
            Err(_) => form_pairs_of(q@) is None,
        },
{
    serde_urlencoded::from_str::<Vec<(String, String)>>(q).map_err(|e| e.to_string())
}

/// What `str::to_lowercase` returns: the result depends on the characters
/// alone.
pub uninterp spec fn lower_of(s: Seq<char>) -> Seq<char>;

/// Relies on `str::to_lowercase`: the folded text of the input.
#[verifier::external_body]
fn to_lowercase(s: &str) -> (r: String)
    ensures
        r@ == lower_of(s@),
        s@.len() == 0 ==> r@.len() == 0,
{
    s.to_lowercase()
}

/// Number of pairs carrying this key.
pub open spec fn spec_count_key(ps: Seq<(Seq<char>, Seq<char>)>, key: Seq<char>) -> int
    decreases ps.len(),
{
    if ps.len() == 0 {
        0
    } else {
        spec_count_key(ps.drop_last(), key) + if ps.last().0 == key {
            1int
        } else {
            0int
        }
    }
}

/// Value of the first pair carrying this key.
pub open spec fn spec_first_val(ps: Seq<(Seq<char>, Seq<char>)>, key: Seq<char>, i: int) -> Option<
    Seq<char>,
>
    decreases ps.len() - i,
{
    if i < 0 || i >= ps.len() {
        None
    } else if ps[i].0 == key {
        Some(ps[i].1)
    } else {
        spec_first_val(ps, key, i + 1)
    }
}

/// Looks a key up among decoded pairs: the first value, `None` when the
/// key is absent, or an error when the key repeats.
fn lookup_unique(v: &Vec<(String, String)>, key: &str) -> (r: Result<Option<String>, ()>)
    ensures
        match r {
            Err(_) => spec_count_key(pairs_view(v@), key@) >= 2,
            Ok(Option::None) => spec_count_key(pairs_view(v@), key@) == 0,
            Ok(Option::Some(val)) => {
                &&& spec_count_key(pairs_view(v@), key@) == 1
                &&& spec_first_val(pairs_view(v@), key@, 0) == Some(val@)
            },
        },
{
    let n = v.len();
    let mut found: Option<String> = None;
    let mut i: usize = 0;
    while i < n
        invariant
            i <= n,
            n == v@.len(),
            match found {
                Option::None => spec_count_key(pairs_view(v@).take(i as int), key@) == 0,
                Option::Some(val) => {
                    &&& spec_count_key(pairs_view(v@).take(i as int), key@) == 1
                    &&& spec_first_val(pairs_view(v@), key@, 0) == Some(val@)
                },
            },
        decreases n - i,
    {
        proof {
            let pv = pairs_view(v@);
            assert(pv.take(i as int + 1).drop_last() =~= pv.take(i as int));
            assert(pv.take(i as int + 1).last() == pv[i as int]);
        }
        let hit = crate::strings::str_eq(v[i].0.as_str(), key);
        if hit {
            match found {
                Some(_) => {
                    proof {
                        lemma_count_key_mono(pairs_view(v@), key@, i as int + 1);
                    }
                    return Err(());
                },
                None => {
                    let mut val = String::new();
                    val.append(v[i].1.as_str());
                    proof {
                        assert(val@ =~= v@[i as int].1@);
                        lemma_first_val_found(pairs_view(v@), key@, i as int);
                    }
                    found = Some(val);
                },
            }
        }
        i = i + 1;
    }
    proof {
        assert(pairs_view(v@).take(n as int) =~= pairs_view(v@));
    }
    Ok(found)
}

/// Counting over a prefix never exceeds counting over the whole.
proof fn lemma_count_key_mono(ps: Seq<(Seq<char>, Seq<char>)>, key: Seq<char>, i: int)
    requires
        0 <= i <= ps.len(),
    ensures
        spec_count_key(ps, key) >= spec_count_key(ps.take(i), key),
    decreases ps.len() - i,
{
    if i == ps.len() {
        assert(ps.take(i) =~= ps);
    } else {
        lemma_count_key_mono(ps, key, i + 1);
        assert(ps.take(i + 1).drop_last() =~= ps.take(i));
    }
}

/// When no earlier pair carries the key, the hit at `i` is the first value.
proof fn lemma_first_val_found(ps: Seq<(Seq<char>, Seq<char>)>, key: Seq<char>, i: int)
    requires
        0 <= i < ps.len(),
        ps[i].0 == key,
        spec_count_key(ps.take(i), key) == 0,
    ensures
        spec_first_val(ps, key, 0) == Some(ps[i].1),
{
    lemma_first_val_scan(ps, key, i, 0);
}

/// Scanning from `j` with no hit in `[j, i)` lands on `i`.
proof fn lemma_first_val_scan(ps: Seq<(Seq<char>, Seq<char>)>, key: Seq<char>, i: int, j: int)
    requires
        0 <= j <= i < ps.len(),
        ps[i].0 == key,
        spec_count_key(ps.take(i), key) == 0,
    ensures
        spec_first_val(ps, key, j) == Some(ps[i].1),
    decreases i - j,
{
    if j < i {
        lemma_count_key_zero_at(ps, key, i, j);
        lemma_first_val_scan(ps, key, i, j + 1);
    }
}

/// A zero count over the prefix rules out a hit at each prefix index.
proof fn lemma_count_key_zero_at(ps: Seq<(Seq<char>, Seq<char>)>, key: Seq<char>, i: int, j: int)
    requires
        0 <= j < i <= ps.len(),
        spec_count_key(ps.take(i), key) == 0,
    ensures
        ps[j].0 != key,
    decreases i - j,
{
    assert(ps.take(i).drop_last() =~= ps.take(i - 1));
    lemma_count_key_nonneg(ps.take(i - 1), key);
    if j < i - 1 {
        lemma_count_key_zero_at(ps, key, i - 1, j);
    } else {
        assert(ps.take(i).last() == ps[i - 1]);
    }
}

/// Counts are never negative.
proof fn lemma_count_key_nonneg(ps: Seq<(Seq<char>, Seq<char>)>, key: Seq<char>)
    ensures
        spec_count_key(ps, key) >= 0,
    decreases ps.len(),
{
    if ps.len() > 0 {
        lemma_count_key_nonneg(ps.drop_last(), key);
    }
}

/// Timestamp precision of a v1 write request.
#[derive(Clone, Copy, Debug, PartialEq, Eq, Structural)]
pub enum Precision {
    Nanoseconds,
    Microseconds,
    Milliseconds,
    Seconds,
}

/// The precision named by a query value, if recognised.
pub open spec fn spec_precision(s: Seq<char>) -> Option<Precision> {
    if s == "ns"@ {
        Some(Precision::Nanoseconds)
    } else if s == "u"@ || s == "us"@ {
        Some(Precision::Microseconds)
    } else if s == "ms"@ {
        Some(Precision::Milliseconds)
    } else if s == "s"@ {
        Some(Precision::Seconds)
    } else {
        None
    }
}

/// Executable twin of `spec_precision`.
fn precision_from_text(s: &str) -> (r: Option<Precision>)
    ensures
        r == spec_precision(s@),
{
    if crate::strings::str_eq(s, "ns") {
        Some(Precision::Nanoseconds)
    } else if crate::strings::str_eq(s, "u") || crate::strings::str_eq(s, "us") {
        Some(Precision::Microseconds)
    } else if crate::strings::str_eq(s, "ms") {
        Some(Precision::Milliseconds)
    } else if crate::strings::str_eq(s, "s") {
        Some(Precision::Seconds)
    } else {
        None
    }
}

/// The retention policy named at the write API, after case folding.
#[derive(Clone, Debug)]
pub enum RetentionPolicy {
    /// No policy given.
    Unspecified,
    /// The default created with a v1 database.
    Autogen,
    /// A policy named by the user; held in folded form.
    Named(String),
}

/// What a folded policy value means: empty or quoted-empty is unspecified,
/// `autogen` is the stock policy, anything else names one.
pub open spec fn spec_rp_is_unspecified(folded: Seq<char>) -> bool {
    folded == ""@ || folded == "''"@
}

/// Executable mapping of a folded policy value.
fn rp_from_folded(s: String) -> (r: RetentionPolicy)
    ensures
        spec_rp_is_unspecified(s@) ==> r is Unspecified,
        s@ == "autogen"@ ==> r is Autogen,
        !spec_rp_is_unspecified(s@) && s@ != "autogen"@ ==> r is Named && r->0@ == s@,
{
    proof {
        reveal_strlit("autogen");
        reveal_strlit("");
        reveal_strlit("''");
        assert("autogen"@.len() == 7);
        assert(""@.len() == 0);
        assert("''"@.len() == 2);
    }
    if crate::strings::str_eq(s.as_str(), "") || crate::strings::str_eq(s.as_str(), "''") {
        RetentionPolicy::Unspecified
    } else if crate::strings::str_eq(s.as_str(), "autogen") {
        RetentionPolicy::Autogen
    } else {
        RetentionPolicy::Named(s)
    }
}

/// The string holds the reserved namespace/policy separator.
pub open spec fn has_slash(s: Seq<char>) -> bool {
    exists|i: int| 0 <= i < s.len() && s[i] == '/'
}

/// Executable twin of `has_slash`.
fn contains_slash(s: &str) -> (r: bool)
    ensures
        r == has_slash(s@),
{
    let n = s.unicode_len();
    let mut i: usize = 0;
    while i < n
        invariant
            i <= n,
            n == s@.len(),
            forall|k: int| 0 <= k < i ==> s@[k] != '/',
        decreases n - i,
    {
        if s.get_char(i) == '/' {
            return true;
        }
        i = i + 1;
    }
    false
}

/// Errors when decoding the database and policy of a v1 write request.
#[derive(Debug)]
pub enum V1WriteParseError {
    /// The request carries no query string at all.
    NoQueryParams,
    /// The query string could not be decoded, a field repeats, the
    /// database is missing, or the precision is unknown.
    DecodeFail { detail: String },
    /// The database or policy value contains the reserved `/`.
    ContainsRpSeparator,
}

impl V1WriteParseError {
    /// The human-readable message.
    pub fn message(&self) -> (r: String)
        ensures
            r@ == match self {
                V1WriteParseError::NoQueryParams => "no db destination provided"@,
                V1WriteParseError::DecodeFail { detail } =>
                    "failed to deserialize db/rp/precision in request: "@ + detail@,
                V1WriteParseError::ContainsRpSeparator =>
                    "db cannot contain the reserved character '/'"@,
            },
    {
        match self {
            V1WriteParseError::NoQueryParams => String::from_str("no db destination provided"),
            V1WriteParseError::DecodeFail { detail } => {
                let mut m = String::from_str(
                    "failed to deserialize db/rp/precision in request: ",
                );
                m.append(detail.as_str());
                m
            },
            V1WriteParseError::ContainsRpSeparator => String::from_str(
                "db cannot contain the reserved character '/'",
            ),
        }
    }
}

/// The decoded parameters of a v1 write request.
#[derive(Debug)]
pub struct WriteParamsV1 {
    pub db: String,
    pub precision: Precision,
    pub rp: RetentionPolicy,
}

/// Decodes a request's query string into write parameters.
///
/// A missing query is rejected outright. The decoded pairs must name `db`
/// exactly once; `precision` and `rp` are optional, each at most once; an
/// unknown precision is rejected. Neither the database nor a named policy
/// may contain `/`. Keys other than these three are ignored.
pub fn parse_v1_write_params(query: Option<&str>) -> (r: Result<WriteParamsV1, V1WriteParseError>)
    ensures
        match r {
            Err(V1WriteParseError::NoQueryParams) => query is None,
            Err(V1WriteParseError::DecodeFail { .. }) => query is Some && (form_pairs_of(
                query->0@,
            ) is None || ({
                let ps = form_pairs_of(query->0@)->Some_0;
                ||| spec_count_key(ps, "db"@) != 1
                ||| spec_count_key(ps, "precision"@) >= 2
                ||| spec_count_key(ps, "rp"@) >= 2
                ||| (spec_count_key(ps, "precision"@) == 1 && spec_precision(
                    spec_first_val(ps, "precision"@, 0)->Some_0,
                ) is None)
            })),
            Err(V1WriteParseError::ContainsRpSeparator) => query is Some && ({
                let ps = form_pairs_of(query->0@)->Some_0;
                &&& form_pairs_of(query->0@) is Some
                &&& spec_count_key(ps, "db"@) == 1
                &&& ({
                    ||| has_slash(spec_first_val(ps, "db"@, 0)->Some_0)
                    ||| (spec_count_key(ps, "rp"@) == 1 && has_slash(
                        lower_of(spec_first_val(ps, "rp"@, 0)->Some_0),
                    ))
                })
            }),
            Ok(w) => query is Some && ({
                let ps = form_pairs_of(query->0@)->Some_0;
                &&& form_pairs_of(query->0@) is Some
                &&& spec_count_key(ps, "db"@) == 1
                &&& Some(w.db@) == spec_first_val(ps, "db"@, 0)
                &&& !has_slash(w.db@)
                &&& (spec_count_key(ps, "precision"@) == 0 ==> w.precision
                    == Precision::Nanoseconds)
                &&& (spec_count_key(ps, "precision"@) == 1 ==> Some(w.precision) == spec_precision(
                    spec_first_val(ps, "precision"@, 0)->Some_0,
                ))
                &&& (spec_count_key(ps, "rp"@) == 0 ==> w.rp is Unspecified)
                &&& (spec_count_key(ps, "rp"@) == 1 ==> ({
                    let folded = lower_of(spec_first_val(ps, "rp"@, 0)->Some_0);
                    &&& (spec_rp_is_unspecified(folded) ==> w.rp is Unspecified)
                    &&& (folded == "autogen"@ ==> w.rp is Autogen)
                    &&& (!spec_rp_is_unspecified(folded) && folded != "autogen"@ ==> w.rp is Named
                        && w.rp->0@ == folded)
                }))
                &&& (w.rp is Named ==> !has_slash(w.rp->0@))
            }),
        },
{
    let q = match query {
        None => {
            return Err(V1WriteParseError::NoQueryParams);
        },
        Some(q) => q,
    };
    let pairs = match decode_form_pairs(q) {
        Err(detail) => {
            return Err(V1WriteParseError::DecodeFail { detail });
        },
        Ok(v) => v,
    };
    let db = match lookup_unique(&pairs, "db") {
        Err(_) => {
            return Err(
                V1WriteParseError::DecodeFail { detail: String::from_str("duplicate field `db`") },
            );
        },
        Ok(None) => {
            return Err(
                V1WriteParseError::DecodeFail { detail: String::from_str("missing field `db`") },
            );
        },
        Ok(Some(db)) => db,
    };
    let precision = match lookup_unique(&pairs, "precision") {
        Err(_) => {
            return Err(
                V1WriteParseError::DecodeFail {
                    detail: String::from_str("duplicate field `precision`"),
                },
            );
        },
        Ok(None) => Precision::Nanoseconds,
        Ok(Some(pv)) => match precision_from_text(pv.as_str()) {
            None => {
                return Err(
                    V1WriteParseError::DecodeFail {
                        detail: String::from_str("unknown precision"),
                    },
                );
            },
            Some(p) => p,
        },
    };
    let rp = match lookup_unique(&pairs, "rp") {
        Err(_) => {
            return Err(
                V1WriteParseError::DecodeFail { detail: String::from_str("duplicate field `rp`") },
            );
        },
        Ok(None) => RetentionPolicy::Unspecified,
        Ok(Some(rv)) => rp_from_folded(to_lowercase(rv.as_str())),
    };
    if contains_slash(db.as_str()) {
        return Err(V1WriteParseError::ContainsRpSeparator);
    }
    if let RetentionPolicy::Named(name) = &rp {
        if contains_slash(name.as_str()) {
            return Err(V1WriteParseError::ContainsRpSeparator);
        }
    }
    Ok(WriteParamsV1 { db, precision, rp })
}

} // verus!
