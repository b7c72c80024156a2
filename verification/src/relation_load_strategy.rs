use vstd::prelude::*;
use vstd::string::StrSliceExecFns;
use crate::text::{
    after, before, contains, contains_text, find_char, index_of, parse_u16, parse_u16_spec, text, decimal,
    lemma_decimal_spells, lemma_index_of, is_digit, unsigned_part,
};

verus! {

/// A database version string that could not be understood.
#[derive(Debug)]
pub struct DatabaseVersionError {
    /// The version string as the database reported it.
    pub version: String,
    pub reason: String,
}

/// A parsed database version.
#[derive(Debug, Clone, Copy, PartialEq, Eq, Structural)]
pub enum DatabaseVersion {
    Mysql(u16, u16, u16),
    Mariadb,
    Unknown,
}

/// The version part of a version string: what precedes the first `-`.
pub open spec fn version_part(v: Seq<char>) -> Seq<char> {
    before(v, '-')
}

/// The version string names MariaDB: the piece after the first `-` (up to the next one)
/// contains `MariaDB`.
pub open spec fn is_mariadb(v: Seq<char>) -> bool {
    match after(v, '-') {
        Option::Some(rest) => contains_text(before(rest, '-'), "MariaDB"@),
        Option::None => false,
    }
}

/// The major, minor and patch pieces of a version part, as far as they are present.
pub open spec fn major_piece(p: Seq<char>) -> Seq<char> {
    before(p, '.')
}

pub open spec fn minor_piece(p: Seq<char>) -> Option<Seq<char>> {
    match after(p, '.') {
        Option::Some(rest) => Option::Some(before(rest, '.')),
        Option::None => Option::None,
    }
}

pub open spec fn patch_piece(p: Seq<char>) -> Option<Seq<char>> {
    match after(p, '.') {
        Option::Some(rest) => match after(rest, '.') {
            Option::Some(rest2) => Option::Some(before(rest2, '.')),
            Option::None => Option::None,
        },
        Option::None => Option::None,
    }
}

/// What parsing the version string `v` gives: the version, or the reason of the failure.
pub open spec fn parse_version(v: Seq<char>) -> Result<DatabaseVersion, Seq<char>> {
    let p = version_part(v);
    if is_mariadb(v) {
        Ok(DatabaseVersion::Mariadb)
    } else if minor_piece(p) is None {
        Err("Missing minor version"@)
    } else if patch_piece(p) is None {
        Err("Missing patch version"@)
    } else if parse_u16_spec(major_piece(p)) is None {
        Err("Major version is not a number"@)
    } else if parse_u16_spec(minor_piece(p).unwrap()) is None {
        Err("Minor version is not a number"@)
    } else if parse_u16_spec(patch_piece(p).unwrap()) is None {
        Err("Patch version is not a number"@)
    } else {
        Ok(DatabaseVersion::Mysql(
            parse_u16_spec(major_piece(p)).unwrap(),
            parse_u16_spec(minor_piece(p).unwrap()).unwrap(),
            parse_u16_spec(patch_piece(p).unwrap()).unwrap(),
        ))
    }
}

/// Whether a database of this version can load relations with joins: MySQL from 8.0.14
/// on (before it a derived table cannot hold outer references), never MariaDB, and any
/// database whose version is not parsed.
pub open spec fn supports_joins(v: DatabaseVersion) -> bool {
    match v {
        DatabaseVersion::Mysql(major, minor, patch) => major > 8 || (major == 8 && (minor > 0 || (minor == 0
            && patch >= 14))),
        DatabaseVersion::Mariadb => false,
        DatabaseVersion::Unknown => true,
    }
}

/// The text before the first `c` in `s` and, when there is one, the text after it.
fn split_once(s: &str, c: char) -> (r: (&str, Option<&str>))
    ensures
        r.0@ == before(s@, c),
        r.1 is Some <==> after(s@, c) is Some,
        r.1 matches Option::Some(rest) ==> after(s@, c) == Option::Some(rest@),
{
    let n = s.unicode_len();
    match find_char(s, c) {
        Option::Some(i) => {
            let head = s.substring_char(0, i);
            let tail = s.substring_char(i + 1, n);
            proof {
                assert(head@ =~= s@.take(i as int));
                assert(tail@ =~= s@.skip(i + 1));
            }
            (head, Option::Some(tail))
        },
        Option::None => {
            proof { assert(s@.subrange(0, n as int) =~= s@); }
            (s.substring_char(0, n), Option::None)
        },
    }
}

impl DatabaseVersion {
    /// Whether a database of this version supports the join relation load strategy.
    pub fn supports_join_relation_load_strategy(&self) -> (b: bool)
        ensures
            b == supports_joins(*self),
    {
        match self {
            DatabaseVersion::Mysql(major, minor, patch) => *major > 8 || (*major == 8 && (*minor > 0 || (*minor
                == 0 && *patch >= 14))),
            DatabaseVersion::Mariadb => false,
            DatabaseVersion::Unknown => true,
        }
    }

    /// Parses a version string as the database reports it: no string is an unknown version,
    /// a MariaDB marker after the first `-` is MariaDB, and otherwise the part before the
    /// first `-` must hold three `.`-separated numbers that fit a `u16`.
    pub fn try_from(version: Option<&str>) -> (r: Result<DatabaseVersion, DatabaseVersionError>)
        ensures
            version is None ==> r == Ok::<DatabaseVersion, DatabaseVersionError>(DatabaseVersion::Unknown),
            version matches Option::Some(v) ==> match parse_version(v@) {
                Ok(d) => r == Ok::<DatabaseVersion, DatabaseVersionError>(d),
                Err(reason) => r matches Err(e) && e.version@ == v@ && e.reason@ == reason,
            },
    {
        match version {
            Option::None => Ok(DatabaseVersion::Unknown),
            Option::Some(v) => {
                let (p, rest) = split_once(v, '-');
                let mariadb = match rest {
                    Option::Some(r) => {
                        let (second, _) = split_once(r, '-');
                        contains(second, "MariaDB")
                    },
                    Option::None => false,
                };
                if mariadb {
                    return Ok(DatabaseVersion::Mariadb);
                }
                let (major, rest1) = split_once(p, '.');
                let rest1 = match rest1 {
                    Option::Some(r) => r,
                    Option::None => return Err(version_error(v, "Missing minor version")),
                };
                let (minor, rest2) = split_once(rest1, '.');
                let rest2 = match rest2 {
                    Option::Some(r) => r,
                    Option::None => return Err(version_error(v, "Missing patch version")),
                };
                let (patch, _) = split_once(rest2, '.');
                let parsed_major = match parse_u16(major) {
                    Option::Some(x) => x,
                    Option::None => return Err(version_error(v, "Major version is not a number")),
                };
                let parsed_minor = match parse_u16(minor) {
                    Option::Some(x) => x,
                    Option::None => return Err(version_error(v, "Minor version is not a number")),
                };
                let parsed_patch = match parse_u16(patch) {
                    Option::Some(x) => x,
                    Option::None => return Err(version_error(v, "Patch version is not a number")),
                };
                Ok(DatabaseVersion::Mysql(parsed_major, parsed_minor, parsed_patch))
            },
        }
    }
}

fn version_error(version: &str, reason: &str) -> (e: DatabaseVersionError)
    ensures
        e.version@ == version@,
        e.reason@ == reason@,
{
    DatabaseVersionError { version: text(version), reason: text(reason) }
}

/// Whether the database supports the join relation load strategy, given its version string.
/// Only MySQL versions are parsed; a version string that cannot be parsed is an error.
pub fn db_version_supports_joins_strategy(db_version: Option<String>) -> (r: Result<bool, DatabaseVersionError>)
    ensures
        db_version is None ==> r == Ok::<bool, DatabaseVersionError>(true),
        db_version matches Option::Some(v) ==> match parse_version(v@) {
            Ok(d) => r == Ok::<bool, DatabaseVersionError>(supports_joins(d)),
            Err(reason) => r matches Err(e) && e.version@ == v@ && e.reason@ == reason,
        },
{
    let parsed = match &db_version {
        Option::Some(v) => DatabaseVersion::try_from(Option::Some(v.as_str())),
        Option::None => DatabaseVersion::try_from(Option::None),
    };
    match parsed {
        Ok(version) => Ok(version.supports_join_relation_load_strategy()),
        Err(e) => Err(e),
    }
}

/// Version `(a, b, c)` comes no later than version `(x, y, z)`: major, then minor, then
/// patch numbers decide.
pub open spec fn version_le(a: u16, b: u16, c: u16, x: u16, y: u16, z: u16) -> bool {
    a < x || (a == x && (b < y || (b == y && c <= z)))
}

/// Join support only grows with the MySQL version: a later version of a version that supports
/// joins supports them too, and an earlier version of one that does not, does not.
pub proof fn lemma_joins_monotone(a: u16, b: u16, c: u16, x: u16, y: u16, z: u16)
    requires
        version_le(a, b, c, x, y, z),
    ensures
        supports_joins(DatabaseVersion::Mysql(a, b, c)) ==> supports_joins(DatabaseVersion::Mysql(x, y, z)),
        !supports_joins(DatabaseVersion::Mysql(x, y, z)) ==> !supports_joins(DatabaseVersion::Mysql(a, b, c)),
{
}

/// MySQL supports joins from version 8.0.14 on, and not before: with `lemma_joins_monotone`,
/// a version supports them exactly when it is 8.0.14 or later.
pub proof fn lemma_joins_from_8_0_14(a: u16, b: u16, c: u16)
    ensures
        supports_joins(DatabaseVersion::Mysql(a, b, c)) <==> version_le(8, 0, 14, a, b, c),
        supports_joins(DatabaseVersion::Mysql(8, 0, 14)),
        !supports_joins(DatabaseVersion::Mysql(8, 0, 13)),
{
}

proof fn lemma_digits_parse(d: Seq<char>, n: u16)
    requires
        d == decimal(n as nat),
    ensures
        parse_u16_spec(d) == Option::Some(n),
        forall|i: int| 0 <= i < d.len() ==> d[i] != '.' && d[i] != '-',
        index_of(d, '.') is None,
{
    lemma_decimal_spells(n as nat);
    assert(is_digit(d[0]));
    assert(unsigned_part(d) == d);
    assert forall|i: int| 0 <= i < d.len() implies d[i] != '.' && d[i] != '-' by {
        assert(is_digit(d[i]));
    }
    lemma_index_of(d, '.', d.len() as int);
}

/// Reading a version string undoes writing one: the text `a.b.c`, each number in decimal,
/// is read as the MySQL version with major `a`, minor `b` and patch `c`.
pub proof fn lemma_version_read_back(a: u16, b: u16, c: u16)
    ensures
        parse_version(decimal(a as nat) + seq!['.'] + decimal(b as nat) + seq!['.'] + decimal(c as nat)) == Ok::<
            DatabaseVersion,
            Seq<char>,
        >(DatabaseVersion::Mysql(a, b, c)),
{
    let da = decimal(a as nat);
    let db = decimal(b as nat);
    let dc = decimal(c as nat);
    lemma_digits_parse(da, a);
    lemma_digits_parse(db, b);
    lemma_digits_parse(dc, c);
    let r = db + seq!['.'] + dc;
    let s = da + seq!['.'] + r;
    assert(s =~= da + seq!['.'] + db + seq!['.'] + dc);
    assert forall|j: int| 0 <= j < s.len() implies s[j] != '-' by {
        if j < da.len() {
            assert(s[j] == da[j]);
        } else if j == da.len() {
        } else if j < da.len() + 1 + db.len() {
            assert(s[j] == db[j - da.len() - 1]);
        } else if j == da.len() + 1 + db.len() {
        } else {
            assert(s[j] == dc[j - da.len() - 2 - db.len()]);
        }
    }
    lemma_index_of(s, '-', s.len() as int);
    assert(version_part(s) == s);
    assert(!is_mariadb(s));
    assert forall|j: int| 0 <= j < da.len() implies s[j] != '.' by {
        assert(s[j] == da[j]);
    }
    lemma_index_of(s, '.', da.len() as int);
    assert(s.take(da.len() as int) =~= da);
    assert(s.skip(da.len() + 1int) =~= r);
    assert forall|j: int| 0 <= j < db.len() implies r[j] != '.' by {
        assert(r[j] == db[j]);
    }
    lemma_index_of(r, '.', db.len() as int);
    assert(r.take(db.len() as int) =~= db);
    assert(r.skip(db.len() + 1int) =~= dc);
    assert(major_piece(s) == da);
    assert(minor_piece(s) == Option::Some(db));
    assert(patch_piece(s) == Option::Some(dc));
}

} // verus!
