//! The numbered SQL change files of the database: reading their order from a directory
//! listing, naming a new one, and rewriting the list of changes the migration runs.
use vstd::prelude::*;

use crate::text::{chars_of, decimal, digit_char, push_decimal, push_str, string_from_chars};

verus! {

/// Why the database changes could not be listed or extended.
#[derive(Debug, PartialEq, Eq)]
pub enum Error {
    CouldNotFindDbChangesDir,
    CannotReadEntry(String),
    EntryHasNoExtension,
    EntryExtensionIsNotStr,
    FilenameIsNotStr,
    FilenameDoesNotExist,
    CannotReadDbChangesDir(String),
    FilenameDoesNotHaveDelimiter,
    FilenamePrefixIsNotInt,
    EntryExtensionIsNotSql,
    CannotReadFile(String),
    InconsistentNumbering,
    CouldNotWriteFile(String),
    CannotReadMigrationScript(String),
    CouldNotWriteMigrationScript(String),
}

impl Error {
    /// The text of the error, as it is shown to the user.
    pub fn message(&self) -> (r: String)
        ensures
            r@ == match self {
                Error::CouldNotFindDbChangesDir => "Could not find db changes dir"@,
                Error::EntryHasNoExtension => "Entry has no extension"@,
                Error::EntryExtensionIsNotStr => "Entry extension is not str"@,
                Error::EntryExtensionIsNotSql => "Entry extension is not sql"@,
                Error::FilenameIsNotStr => "Filename is not str"@,
                Error::FilenameDoesNotExist => "Filename does not exist"@,
                Error::FilenameDoesNotHaveDelimiter => "Filename does not have delimiter"@,
                Error::FilenamePrefixIsNotInt => "Filename prefix is not int"@,
                Error::CannotReadDbChangesDir(e) => "Cannot read db changes dir, "@ + e@,
                Error::CannotReadEntry(e) => "Cannot read entry, "@ + e@,
                Error::CannotReadFile(e) => "Cannot read file, "@ + e@,
                Error::InconsistentNumbering => "Inconsistent numbering"@,
                Error::CouldNotWriteFile(e) => "Could not write file, "@ + e@,
                Error::CannotReadMigrationScript(e) => "Cannot read migration script, "@ + e@,
                Error::CouldNotWriteMigrationScript(e) => "Could not write migration script, "@ + e@,
            },
    {
        match self {
            Error::CouldNotFindDbChangesDir => "Could not find db changes dir".to_owned(),
            Error::EntryHasNoExtension => "Entry has no extension".to_owned(),
            Error::EntryExtensionIsNotStr => "Entry extension is not str".to_owned(),
            Error::EntryExtensionIsNotSql => "Entry extension is not sql".to_owned(),
            Error::FilenameIsNotStr => "Filename is not str".to_owned(),
            Error::FilenameDoesNotExist => "Filename does not exist".to_owned(),
            Error::FilenameDoesNotHaveDelimiter => "Filename does not have delimiter".to_owned(),
            Error::FilenamePrefixIsNotInt => "Filename prefix is not int".to_owned(),
            Error::CannotReadDbChangesDir(e) => {
                let mut r = "Cannot read db changes dir, ".to_owned();
                push_str(&mut r, e.as_str());
                r
            },
            Error::CannotReadEntry(e) => {
                let mut r = "Cannot read entry, ".to_owned();
                push_str(&mut r, e.as_str());
                r
            },
            Error::CannotReadFile(e) => {
                let mut r = "Cannot read file, ".to_owned();
                push_str(&mut r, e.as_str());
                r
            },
            Error::InconsistentNumbering => "Inconsistent numbering".to_owned(),
            Error::CouldNotWriteFile(e) => {
                let mut r = "Could not write file, ".to_owned();
                push_str(&mut r, e.as_str());
                r
            },
            Error::CannotReadMigrationScript(e) => {
                let mut r = "Cannot read migration script, ".to_owned();
                push_str(&mut r, e.as_str());
                r
            },
            Error::CouldNotWriteMigrationScript(e) => {
                let mut r = "Could not write migration script, ".to_owned();
                push_str(&mut r, e.as_str());
                r
            },
        }
    }
}

/// A name read from a directory entry: missing, not valid Unicode, or text.
#[derive(Debug, PartialEq, Eq)]
pub enum EntryText {
    Missing,
    NotUnicode,
    Text(String),
}

/// The extension and the file name of one entry of the changes directory.
#[derive(Debug, PartialEq, Eq)]
pub struct ChangeEntry {
    pub extension: EntryText,
    pub file_name: EntryText,
}

pub enum TextModel {
    Missing,
    NotUnicode,
    Text(Seq<char>),
}

pub enum Fault {
    EntryHasNoExtension,
    EntryExtensionIsNotStr,
    FilenameIsNotStr,
    FilenameDoesNotExist,
    FilenameDoesNotHaveDelimiter,
    FilenamePrefixIsNotInt,
    EntryExtensionIsNotSql,
    InconsistentNumbering,
    Other,
}

pub open spec fn fault_of(e: Error) -> Fault {
    match e {
        Error::EntryHasNoExtension => Fault::EntryHasNoExtension,
        Error::EntryExtensionIsNotStr => Fault::EntryExtensionIsNotStr,
        Error::FilenameIsNotStr => Fault::FilenameIsNotStr,
        Error::FilenameDoesNotExist => Fault::FilenameDoesNotExist,
        Error::FilenameDoesNotHaveDelimiter => Fault::FilenameDoesNotHaveDelimiter,
        Error::FilenamePrefixIsNotInt => Fault::FilenamePrefixIsNotInt,
        Error::EntryExtensionIsNotSql => Fault::EntryExtensionIsNotSql,
        Error::InconsistentNumbering => Fault::InconsistentNumbering,
        _ => Fault::Other,
    }
}

pub open spec fn text_view(t: EntryText) -> TextModel {
    match t {
        EntryText::Missing => TextModel::Missing,
        EntryText::NotUnicode => TextModel::NotUnicode,
        EntryText::Text(s) => TextModel::Text(s@),
    }
}

/// `p` occurs in `s` at `i`.
pub open spec fn occurs_at(s: Seq<char>, p: Seq<char>, i: int) -> bool {
    0 <= i && i + p.len() <= s.len() && s.subrange(i, i + p.len()) == p
}

/// The first place `p` occurs in `s`.
pub open spec fn first_occurrence(s: Seq<char>, p: Seq<char>) -> Option<int> {
    if exists|i: int| occurs_at(s, p, i) && forall|j: int| 0 <= j < i ==> !#[trigger] occurs_at(s, p, j) {
        Some(choose|i: int| occurs_at(s, p, i) && forall|j: int| 0 <= j < i ==> !#[trigger] occurs_at(s, p, j))
    } else {
        None
    }
}

proof fn lemma_first_occurrence(s: Seq<char>, p: Seq<char>, i: int)
    requires
        occurs_at(s, p, i),
        forall|j: int| 0 <= j < i ==> !#[trigger] occurs_at(s, p, j),
    ensures
        first_occurrence(s, p) == Some(i),
{
    let k = choose|k: int| occurs_at(s, p, k) && forall|j: int| 0 <= j < k ==> !#[trigger] occurs_at(s, p, j);
    if k < i {
        assert(!occurs_at(s, p, k));
    }
    if k > i {
        assert(!occurs_at(s, p, i));
    }
}

proof fn lemma_first_occurrence_found(s: Seq<char>, p: Seq<char>)
    ensures
        first_occurrence(s, p) matches Some(i) ==> occurs_at(s, p, i),
{
}

proof fn lemma_no_occurrence(s: Seq<char>, p: Seq<char>)
    requires
        forall|j: int| 0 <= j ==> !#[trigger] occurs_at(s, p, j),
    ensures
        first_occurrence(s, p) is None,
{
}

/// Finds the first place `p` occurs in `s`.
fn find(s: &Vec<char>, p: &Vec<char>) -> (r: Option<usize>)
    requires
        p@.len() > 0,
    ensures
        match first_occurrence(s@, p@) {
            Some(i) => r matches Some(k) && k == i,
            None => r is None,
        },
{
    if s.len() < p.len() {
        assert forall|j: int| 0 <= j implies !#[trigger] occurs_at(s@, p@, j) by {}
        proof {
            lemma_no_occurrence(s@, p@);
        }
        return None;
    }
    let last = s.len() - p.len();
    let m = p.len();
    let mut i: usize = 0;
    while i <= last
        invariant
            last + m == s.len(),
            m == p@.len(),
            m > 0,
            forall|j: int| 0 <= j < i ==> !#[trigger] occurs_at(s@, p@, j),
        decreases last + 1 - i,
    {
        let mut same = true;
        for k in 0..m
            invariant
                last + m == s.len(),
                m == p@.len(),
                i <= last,
                same == forall|t: int| 0 <= t < k ==> s@[i + t] == p@[t],
        {
            if s[i + k] != p[k] {
                same = false;
            }
        }
        if same {
            assert(s@.subrange(i as int, i + m) =~= p@);
            proof {
                lemma_first_occurrence(s@, p@, i as int);
            }
            return Some(i);
        }
        assert(!occurs_at(s@, p@, i as int)) by {
            let t = choose|t: int| 0 <= t < m && s@[i + t] != p@[t];
            if s@.subrange(i as int, i + m) == p@ {
                assert(s@.subrange(i as int, i + m)[t] == s@[i + t]);
            }
        }
        i = i + 1;
    }
    assert forall|j: int| 0 <= j implies !#[trigger] occurs_at(s@, p@, j) by {
        if j > last {
        }
    }
    proof {
        lemma_no_occurrence(s@, p@);
    }
    None
}

pub open spec fn is_digit(c: char) -> bool {
    '0' <= c && c <= '9'
}

/// The value of a sequence of decimal digits.
pub open spec fn digits_value(d: Seq<char>) -> nat
    decreases d.len(),
{
    if d.len() == 0 {
        0
    } else {
        digits_value(d.drop_last()) * 10 + ((d.last() as u32) - ('0' as u32)) as nat
    }
}

/// The text after an optional leading `+`.
pub open spec fn unsigned_part(s: Seq<char>) -> Seq<char> {
    if s.len() > 0 && s[0] == '+' {
        s.skip(1)
    } else {
        s
    }
}

/// What `u32::from_str` accepts: an optional `+`, then at least one digit, of a value that
/// fits 32 bits.
pub open spec fn parsed_u32(s: Seq<char>) -> Option<u32> {
    let d = unsigned_part(s);
    if d.len() == 0 || !(forall|i: int| 0 <= i < d.len() ==> is_digit(#[trigger] d[i])) {
        None
    } else if digits_value(d) > u32::MAX {
        None
    } else {
        Some(digits_value(d) as u32)
    }
}

proof fn lemma_digits_value_grows(d: Seq<char>, k: int)
    requires
        0 <= k <= d.len(),
        forall|i: int| 0 <= i < d.len() ==> is_digit(#[trigger] d[i]),
    ensures
        digits_value(d.take(k)) <= digits_value(d),
    decreases d.len() - k,
{
    if k < d.len() {
        lemma_digits_value_grows(d, k + 1);
        assert(d.take(k + 1).drop_last() =~= d.take(k));
    } else {
        assert(d.take(k) =~= d);
    }
}

/// Parses a number as `u32::from_str` does.
pub fn parse_u32(s: &Vec<char>) -> (r: Option<u32>)
    ensures
        r == parsed_u32(s@),
{
    let start: usize = if s.len() > 0 && s[0] == '+' {
        1
    } else {
        0
    };
    let ghost d = unsigned_part(s@);
    assert(d =~= s@.skip(start as int));
    if start == s.len() {
        return None;
    }
    let n = s.len();
    let mut value: u64 = 0;
    let mut i: usize = start;
    while i < n
        invariant
            start <= i <= n,
            n == s@.len(),
            d == s@.skip(start as int),
            d == unsigned_part(s@),
            d.len() > 0,
            value == digits_value(d.take(i - start)),
            value <= u32::MAX,
            forall|t: int| 0 <= t < i - start ==> is_digit(#[trigger] d[t]),
        decreases n - i,
    {
        let c = s[i];
        assert(d[i - start] == c);
        if !('0' <= c && c <= '9') {
            assert(!is_digit(d[i - start]));
            return None;
        }
        assert(d.take(i + 1 - start).drop_last() =~= d.take(i - start));
        assert(d.take(i + 1 - start).last() == c);
        value = value * 10 + (c as u32 - '0' as u32) as u64;
        i = i + 1;
        assert(value == digits_value(d.take(i - start)));
        if value > u32::MAX as u64 {
            proof {
                if forall|t: int| 0 <= t < d.len() ==> is_digit(#[trigger] d[t]) {
                    lemma_digits_value_grows(d, i - start);
                }
            }
            return None;
        }
    }
    assert(d.take(n - start) =~= d);
    Some(value as u32)
}

pub struct ChangeEntryModel {
    pub extension: TextModel,
    pub file_name: TextModel,
}

pub open spec fn entries_view(v: Seq<ChangeEntry>) -> Seq<ChangeEntryModel> {
    v.map_values(|e: ChangeEntry| ChangeEntryModel { extension: text_view(e.extension), file_name: text_view(e.file_name) })
}

/// The number and file name of one entry: it must be an `.sql` file named `<number>__...`.
pub open spec fn entry_number(e: ChangeEntryModel) -> Result<(u32, Seq<char>), Fault> {
    match e.extension {
        TextModel::Missing => Err(Fault::EntryHasNoExtension),
        TextModel::NotUnicode => Err(Fault::EntryExtensionIsNotStr),
        TextModel::Text(x) => if x == "sql"@ {
            match e.file_name {
                TextModel::Missing => Err(Fault::FilenameDoesNotExist),
                TextModel::NotUnicode => Err(Fault::FilenameIsNotStr),
                TextModel::Text(f) => match first_occurrence(f, "__"@) {
                    None => Err(Fault::FilenameDoesNotHaveDelimiter),
                    Some(k) => match parsed_u32(f.take(k)) {
                        None => Err(Fault::FilenamePrefixIsNotInt),
                        Some(n) => Ok((n, f)),
                    },
                },
            }
        } else {
            Err(Fault::EntryExtensionIsNotSql)
        },
    }
}

/// The numbered changes of the entries, in order; the first entry that is not one fails.
pub open spec fn collected(es: Seq<ChangeEntryModel>) -> Result<Seq<(u32, Seq<char>)>, Fault>
    decreases es.len(),
{
    if es.len() == 0 {
        Ok(Seq::empty())
    } else {
        match collected(es.drop_last()) {
            Err(f) => Err(f),
            Ok(v) => match entry_number(es.last()) {
                Err(f) => Err(f),
                Ok(c) => Ok(v.push(c)),
            },
        }
    }
}

/// How many of the changes have a number below `k`.
pub open spec fn count_less(s: Seq<(u32, Seq<char>)>, k: u32) -> nat
    decreases s.len(),
{
    if s.len() == 0 {
        0
    } else {
        count_less(s.drop_last(), k) + if s.last().0 < k {
            1nat
        } else {
            0nat
        }
    }
}

/// How many of the changes have the number `k`.
pub open spec fn count_equal(s: Seq<(u32, Seq<char>)>, k: u32) -> nat
    decreases s.len(),
{
    if s.len() == 0 {
        0
    } else {
        count_equal(s.drop_last(), k) + if s.last().0 == k {
            1nat
        } else {
            0nat
        }
    }
}

/// Where change `i` stands once the changes are ordered by number, changes with the same
/// number keeping their order.
pub open spec fn stable_rank(s: Seq<(u32, Seq<char>)>, i: int) -> nat {
    count_less(s, s[i].0) + count_equal(s.take(i), s[i].0)
}

/// The highest number of the changes, or 0 when there are none.
pub open spec fn max_number(s: Seq<(u32, Seq<char>)>) -> u32
    decreases s.len(),
{
    if s.len() == 0 {
        0
    } else if max_number(s.drop_last()) < s.last().0 {
        s.last().0
    } else {
        max_number(s.drop_last())
    }
}

proof fn lemma_counts_bounded(s: Seq<(u32, Seq<char>)>, k: u32)
    ensures
        count_less(s, k) + count_equal(s, k) <= s.len(),
    decreases s.len(),
{
    if s.len() > 0 {
        lemma_counts_bounded(s.drop_last(), k);
    }
}

proof fn lemma_count_equal_prefix(s: Seq<(u32, Seq<char>)>, k: u32, i: int)
    requires
        0 <= i <= s.len(),
    ensures
        count_equal(s.take(i), k) <= count_equal(s, k),
    decreases s.len() - i,
{
    if i < s.len() {
        lemma_count_equal_prefix(s, k, i + 1);
        assert(s.take(i + 1).drop_last() =~= s.take(i));
    } else {
        assert(s.take(i) =~= s);
    }
}

/// Everything below or at `k1` is below `k2` when `k1 < k2`.
proof fn lemma_count_less_grows(s: Seq<(u32, Seq<char>)>, k1: u32, k2: u32)
    requires
        k1 < k2,
    ensures
        count_less(s, k1) + count_equal(s, k1) <= count_less(s, k2),
    decreases s.len(),
{
    if s.len() > 0 {
        lemma_count_less_grows(s.drop_last(), k1, k2);
    }
}

/// Ordering by number is a permutation: every change gets a place of its own.
pub proof fn law_ranks_are_a_permutation(s: Seq<(u32, Seq<char>)>, i: int, j: int)
    requires
        0 <= i < s.len(),
        0 <= j < s.len(),
    ensures
        stable_rank(s, i) < s.len(),
        i != j ==> stable_rank(s, i) != stable_rank(s, j),
{
    lemma_rank_bound(s, i);
    if i < j {
        lemma_ranks_differ(s, i, j);
    } else if j < i {
        lemma_ranks_differ(s, j, i);
    }
}

proof fn lemma_rank_bound(s: Seq<(u32, Seq<char>)>, i: int)
    requires
        0 <= i < s.len(),
    ensures
        stable_rank(s, i) < s.len(),
{
    let k = s[i].0;
    lemma_counts_bounded(s, k);
    lemma_count_equal_prefix(s, k, i + 1);
    assert(s.take(i + 1).drop_last() =~= s.take(i));
    assert(count_equal(s.take(i + 1), k) == count_equal(s.take(i), k) + 1);
}

proof fn lemma_ranks_differ(s: Seq<(u32, Seq<char>)>, i: int, j: int)
    requires
        0 <= i < j < s.len(),
    ensures
        stable_rank(s, i) != stable_rank(s, j),
{
    let ki = s[i].0;
    let kj = s[j].0;
    if ki == kj {
        lemma_count_equal_prefix(s.take(j), ki, i + 1);
        assert(s.take(j).take(i + 1) =~= s.take(i + 1));
        assert(s.take(i + 1).drop_last() =~= s.take(i));
    } else if ki < kj {
        lemma_count_less_grows(s, ki, kj);
        lemma_count_equal_prefix(s, ki, i + 1);
        assert(s.take(i + 1).drop_last() =~= s.take(i));
    } else {
        lemma_count_less_grows(s, kj, ki);
        lemma_count_equal_prefix(s, kj, j + 1);
        assert(s.take(j + 1).drop_last() =~= s.take(j));
    }
}

/// The number and file name of one entry, as `entry_number` describes.
fn number_of(entry: &ChangeEntry) -> (r: Result<(u32, String), Error>)
    ensures
        match entry_number(ChangeEntryModel { extension: text_view(entry.extension), file_name: text_view(entry.file_name) }) {
            Ok(c) => r matches Ok(x) && x.0 == c.0 && x.1@ == c.1,
            Err(f) => r matches Err(e) && fault_of(e) == f,
        },
{
    let extension = match &entry.extension {
        EntryText::Missing => {
            return Err(Error::EntryHasNoExtension);
        },
        EntryText::NotUnicode => {
            return Err(Error::EntryExtensionIsNotStr);
        },
        EntryText::Text(x) => x,
    };
    let sql = "sql".to_owned();
    if *extension != sql {
        return Err(Error::EntryExtensionIsNotSql);
    }
    let file_name = match &entry.file_name {
        EntryText::Missing => {
            return Err(Error::FilenameDoesNotExist);
        },
        EntryText::NotUnicode => {
            return Err(Error::FilenameIsNotStr);
        },
        EntryText::Text(f) => f,
    };
    let chars = chars_of(file_name.as_str());
    let delimiter = chars_of("__");
    proof {
        reveal_strlit("__");
    }
    let k = match find(&chars, &delimiter) {
        None => {
            return Err(Error::FilenameDoesNotHaveDelimiter);
        },
        Some(k) => k,
    };
    let mut prefix: Vec<char> = Vec::new();
    for i in 0..k
        invariant
            k <= chars@.len(),
            prefix@ == chars@.take(i as int),
    {
        prefix.push(chars[i]);
        assert(chars@.take(i + 1) =~= chars@.take(i as int).push(chars@[i as int]));
    }
    match parse_u32(&prefix) {
        None => Err(Error::FilenamePrefixIsNotInt),
        Some(n) => Ok((n, file_name.clone())),
    }
}

/// The file names of the changes ordered by number, when the entries are numbered changes
/// `1..=n` at most once each in effect: their count equals their highest number.
pub fn ordered_changes(entries: &Vec<ChangeEntry>) -> (r: Result<Vec<String>, Error>)
    ensures
        match collected(entries_view(entries@)) {
            Err(f) => r matches Err(e) && fault_of(e) == f,
            Ok(s) => if s.len() > 0 && s.len() as u32 == max_number(s) {
                r matches Ok(names) && names@.len() == s.len() && forall|i: int|
                    0 <= i < s.len() ==> (#[trigger] names@[stable_rank(s, i) as int])@ == s[i].1
            } else {
                r matches Err(e) && e == Error::InconsistentNumbering
            },
        },
{
    let ghost es = entries_view(entries@);
    let mut changes: Vec<(u32, String)> = Vec::new();
    let n = entries.len();
    assert(es.take(0) =~= Seq::<ChangeEntryModel>::empty());
    assert(changes@.map_values(|c: (u32, String)| (c.0, c.1@)) =~= Seq::<(u32, Seq<char>)>::empty());
    for i in 0..n
        invariant
            n == entries@.len(),
            es == entries_view(entries@),
            collected(es.take(i as int)) == Ok::<Seq<(u32, Seq<char>)>, Fault>(changes@.map_values(|c: (u32, String)| (c.0, c.1@))),
    {
        assert(es.take(i + 1).drop_last() =~= es.take(i as int));
        assert(es.take(i + 1).last() == es[i as int]);
        match number_of(&entries[i]) {
            Ok(c) => {
                let ghost before = changes@;
                changes.push(c);
                assert(changes@.map_values(|c: (u32, String)| (c.0, c.1@)) =~= before.map_values(|c: (u32, String)| (c.0, c.1@)).push((c.0, c.1@)));
            },
            Err(e) => {
                proof {
                    lemma_collected_error_stays(es, i + 1);
                    assert(es.take(n as int) =~= es);
                }
                return Err(e);
            },
        }
    }
    assert(es.take(n as int) =~= es);
    let ghost s = changes@.map_values(|c: (u32, String)| (c.0, c.1@));
    let m = changes.len();
    let mut highest: u32 = 0;
    for i in 0..m
        invariant
            m == changes@.len(),
            s == changes@.map_values(|c: (u32, String)| (c.0, c.1@)),
            highest == max_number(s.take(i as int)),
    {
        assert(s.take(i + 1).drop_last() =~= s.take(i as int));
        if highest < changes[i].0 {
            highest = changes[i].0;
        }
    }
    assert(s.take(m as int) =~= s);
    if m == 0 || m as u32 != highest {
        return Err(Error::InconsistentNumbering);
    }
    let mut names: Vec<String> = Vec::new();
    for i in 0..m
        invariant
            m == changes@.len(),
            names@.len() == i,
    {
        names.push(String::new());
    }
    for i in 0..m
        invariant
            m == changes@.len(),
            s == changes@.map_values(|c: (u32, String)| (c.0, c.1@)),
            names@.len() == m,
            forall|j: int| 0 <= j < i ==> (#[trigger] names@[stable_rank(s, j) as int])@ == s[j].1,
    {
        let key = changes[i].0;
        let mut less: usize = 0;
        let mut equal_before: usize = 0;
        for j in 0..m
            invariant
                m == changes@.len(),
                s == changes@.map_values(|c: (u32, String)| (c.0, c.1@)),
                0 <= i < m,
                key == s[i as int].0,
                less == count_less(s.take(j as int), key),
                equal_before == count_equal(s.take(if j < i { j as int } else { i as int }), key),
                less <= j,
                equal_before <= j,
        {
            assert(s.take(j + 1).drop_last() =~= s.take(j as int));
            if changes[j].0 < key {
                less = less + 1;
            }
            if j < i && changes[j].0 == key {
                equal_before = equal_before + 1;
            }
        }
        assert(s.take(m as int) =~= s);
        proof {
            law_ranks_are_a_permutation(s, i as int, i as int);
            assert forall|j: int| 0 <= j < i implies stable_rank(s, j) != stable_rank(s, i as int) by {
                law_ranks_are_a_permutation(s, j, i as int);
            }
        }
        assert(less + equal_before == stable_rank(s, i as int));
        let rank = less + equal_before;
        let ghost before = names@;
        names.set(rank, changes[i].1.clone());
        assert forall|j: int| 0 <= j < i + 1 implies (#[trigger] names@[stable_rank(s, j) as int])@ == s[j].1 by {
            if j < i {
                law_ranks_are_a_permutation(s, j, i as int);
                assert(names@[stable_rank(s, j) as int] == before[stable_rank(s, j) as int]);
            }
        }
    }
    Ok(names)
}

proof fn lemma_collected_error_stays(es: Seq<ChangeEntryModel>, k: int)
    requires
        0 <= k <= es.len(),
        collected(es.take(k)) is Err,
    ensures
        collected(es) == collected(es.take(k)),
    decreases es.len() - k,
{
    if k < es.len() {
        assert(es.take(k + 1).drop_last() =~= es.take(k));
        lemma_collected_error_stays(es, k + 1);
    } else {
        assert(es.take(k) =~= es);
    }
}

/// The name of the next change file: its number, two underscores, the name, and `.sql`.
pub fn change_file_name(existing: usize, change_name: &str) -> (r: String)
    requires
        existing < usize::MAX,
    ensures
        r@ == decimal((existing + 1) as nat) + "__"@ + change_name@ + ".sql"@,
{
    let mut r = String::new();
    push_decimal(&mut r, (existing + 1) as u128);
    push_str(&mut r, "__");
    push_str(&mut r, change_name);
    push_str(&mut r, ".sql");
    r
}

proof fn lemma_digit_char(d: nat)
    requires
        d < 10,
    ensures
        is_digit(digit_char(d)),
        (digit_char(d) as u32) - ('0' as u32) == d,
{
    assert(seq!['0', '1', '2', '3', '4', '5', '6', '7', '8', '9'][d as int] == digit_char(d));
}

/// The decimal form of a number is digits only, and they give the number back.
proof fn lemma_decimal_digits(n: nat)
    ensures
        decimal(n).len() > 0,
        forall|i: int| 0 <= i < decimal(n).len() ==> is_digit(#[trigger] decimal(n)[i]),
        digits_value(decimal(n)) == n,
    decreases n,
{
    if n < 10 {
        lemma_digit_char(n);
        let d = decimal(n);
        assert(d.drop_last() =~= Seq::<char>::empty());
        assert(digits_value(d.drop_last()) == 0);
        assert(d.last() == digit_char(n));
        assert(digits_value(d) == digits_value(d.drop_last()) * 10 + ((d.last() as u32) - ('0' as u32)) as nat);
    } else {
        lemma_decimal_digits(n / 10);
        lemma_digit_char(n % 10);
        let d = decimal(n);
        assert(d.drop_last() =~= decimal(n / 10));
        assert(d.last() == digit_char(n % 10));
        assert forall|i: int| 0 <= i < d.len() implies is_digit(#[trigger] d[i]) by {
            if i < d.len() - 1 {
                assert(d[i] == decimal(n / 10)[i]);
            }
        }
        assert(digits_value(d) == digits_value(d.drop_last()) * 10 + ((d.last() as u32) - ('0' as u32)) as nat);
        assert(digits_value(d) == digits_value(decimal(n / 10)) * 10 + n % 10);
        assert(n == (n / 10) * 10 + n % 10) by (nonlinear_arith);
    }
}

/// A new change file is read back with the number it was given: the one after the
/// `existing` changes, when that number fits 32 bits.
pub proof fn law_new_change_is_numbered_next(existing: nat, change_name: Seq<char>)
    requires
        existing + 1 <= u32::MAX,
    ensures
        ({
            let file_name = decimal(existing + 1) + "__"@ + change_name + ".sql"@;
            entry_number(ChangeEntryModel { extension: TextModel::Text("sql"@), file_name: TextModel::Text(file_name) })
                == Ok::<(u32, Seq<char>), Fault>(((existing + 1) as u32, file_name))
        }),
{
    let n = existing + 1;
    let d = decimal(n);
    let f = d + "__"@ + change_name + ".sql"@;
    lemma_decimal_digits(n);
    reveal_strlit("__");
    assert("__"@ =~= seq!['_', '_']);
    let k = d.len() as int;
    assert(f.subrange(k, k + 2) =~= "__"@);
    assert forall|j: int| 0 <= j < k implies !#[trigger] occurs_at(f, "__"@, j) by {
        assert(f[j] == d[j]);
        assert(is_digit(d[j]));
        if occurs_at(f, "__"@, j) {
            assert(f.subrange(j, j + 2)[0] == f[j]);
        }
    }
    lemma_first_occurrence(f, "__"@, k);
    assert(f.take(k) =~= d);
    assert(unsigned_part(d) == d) by {
        assert(is_digit(d[0]));
    }
}

/// The marker that fences the list of changes in the migration script.
pub open spec fn fence() -> Seq<char> {
    "//--------"@
}

/// The line of the migration script that runs change `c`.
pub open spec fn change_line(c: Seq<char>) -> Seq<char> {
    "    sqlx::query_file!(\"./db/changes/"@ + c + "\", &[]);\n"@
}

/// The lines that run each change, in order.
pub open spec fn change_lines(cs: Seq<Seq<char>>) -> Seq<char>
    decreases cs.len(),
{
    if cs.len() == 0 {
        Seq::empty()
    } else {
        change_lines(cs.drop_last()) + change_line(cs.last())
    }
}

/// The migration script with the text between its two fences replaced by a line per change.
pub open spec fn rewritten_script(s: Seq<char>, cs: Seq<Seq<char>>) -> Result<Seq<char>, Seq<char>> {
    match first_occurrence(s, fence()) {
        None => Err("Could not find first '//--------' delimiter in migration script"@),
        Some(a) => {
            let remainder = s.skip(a + fence().len());
            match first_occurrence(remainder, fence()) {
                None => Err("Could not find second '//--------' delimiter in migration script"@),
                Some(b) => Ok(
                    s.take(a) + fence() + "\n"@ + change_lines(cs) + "\n"@ + fence() + "\n"@ + remainder.skip(
                        b + fence().len(),
                    ),
                ),
            }
        },
    }
}

fn slice_chars(v: &Vec<char>, from: usize, to: usize) -> (r: Vec<char>)
    requires
        from <= to <= v@.len(),
    ensures
        r@ == v@.subrange(from as int, to as int),
{
    let mut r: Vec<char> = Vec::new();
    for i in from..to
        invariant
            from <= to <= v@.len(),
            r@ == v@.subrange(from as int, i as int),
    {
        r.push(v[i]);
        assert(v@.subrange(from as int, i + 1) =~= v@.subrange(from as int, i as int).push(v@[i as int]));
    }
    r
}

/// Rewrites the migration script so that it runs `changes`, in order, between its fences.
pub fn migration_script_with(script: &str, changes: &Vec<String>) -> (r: Result<String, Error>)
    ensures
        match rewritten_script(script@, changes@.map_values(|c: String| c@)) {
            Ok(t) => r matches Ok(x) && x@ == t,
            Err(m) => r matches Err(Error::CannotReadMigrationScript(x)) && x@ == m,
        },
{
    proof {
        reveal_strlit("//--------");
    }
    let s = chars_of(script);
    let f = chars_of("//--------");
    let a = match find(&s, &f) {
        None => {
            return Err(
                Error::CannotReadMigrationScript(
                    "Could not find first '//--------' delimiter in migration script".to_owned(),
                ),
            );
        },
        Some(a) => a,
    };
    proof {
        lemma_first_occurrence_found(s@, f@);
    }
    let slen = s.len();
    let flen = f.len();
    assert(a + flen <= slen);
    let beginning = slice_chars(&s, 0, a);
    let remainder = slice_chars(&s, a + flen, slen);
    assert(remainder@ =~= s@.skip(a + fence().len()));
    let b = match find(&remainder, &f) {
        None => {
            return Err(
                Error::CannotReadMigrationScript(
                    "Could not find second '//--------' delimiter in migration script".to_owned(),
                ),
            );
        },
        Some(b) => b,
    };
    proof {
        lemma_first_occurrence_found(remainder@, f@);
    }
    let rlen = remainder.len();
    assert(b + flen <= rlen);
    let end = slice_chars(&remainder, b + flen, rlen);
    assert(end@ =~= remainder@.skip(b + fence().len()));
    assert(beginning@ =~= s@.take(a as int));
    let mut middle = String::new();
    let n = changes.len();
    let ghost cs = changes@.map_values(|c: String| c@);
    assert(cs.take(0) =~= Seq::<Seq<char>>::empty());
    for i in 0..n
        invariant
            n == changes@.len(),
            cs == changes@.map_values(|c: String| c@),
            middle@ == change_lines(cs.take(i as int)),
    {
        push_str(&mut middle, "    sqlx::query_file!(\"./db/changes/");
        push_str(&mut middle, changes[i].as_str());
        push_str(&mut middle, "\", &[]);\n");
        assert(cs.take(i + 1).drop_last() =~= cs.take(i as int));
        assert(cs.take(i + 1).last() == changes@[i as int]@);
    }
    assert(cs.take(n as int) =~= cs);
    let mut r = string_from_chars(&beginning);
    push_str(&mut r, "//--------\n");
    push_str(&mut r, middle.as_str());
    push_str(&mut r, "\n//--------\n");
    let tail = string_from_chars(&end);
    push_str(&mut r, tail.as_str());
    proof {
        reveal_strlit("//--------\n");
        reveal_strlit("\n//--------\n");
        reveal_strlit("\n");
    }
    assert(r@ =~= s@.take(a as int) + fence() + "\n"@ + change_lines(cs) + "\n"@ + fence() + "\n"@
        + remainder@.skip(b + fence().len()));
    Ok(r)
}

} // verus!
