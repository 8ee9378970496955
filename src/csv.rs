//! The recipient list: one row per claimant and reward category, in the text
//! form `pubkey,amount_unlocked,amount_locked,category` under that header.
use vstd::prelude::*;

use vstd::string::StringSliceAdditionalSpecFns;

use crate::airdrop::{Pubkey, TreeNode};
use crate::hash::hash_eq;

verus! {

/// The source of a reward.
#[derive(Debug, PartialEq, Eq, Structural, Clone, Copy)]
pub enum AirdropCategory {
    Staker,
    Validator,
    Searcher,
}

/// One row of the recipient list.
#[derive(Debug, PartialEq, Eq, Clone, Copy)]
pub struct CsvEntry {
    pub pubkey: Pubkey,
    pub amount_unlocked: u64,
    pub amount_locked: u64,
    pub category: AirdropCategory,
}

/// Why a recipient list could not be read.
#[derive(Debug, PartialEq, Eq, Structural, Clone, Copy)]
pub enum CsvError {
    /// The first line is not the expected header.
    MissingHeader,
    /// The line at this index (the header being line 0) is not a valid row.
    InvalidRow(usize),
    /// A claimant's amounts in one category sum past 64 bits.
    AmountOverflow,
}

/// The text split at every `sep`; always at least one piece.
pub open spec fn split_on(s: Seq<u8>, sep: u8) -> Seq<Seq<u8>>
    decreases s.len(),
{
    if s.len() == 0 {
        seq![seq![]]
    } else {
        let r = split_on(s.drop_last(), sep);
        if s.last() == sep {
            r.push(seq![])
        } else {
            r.update(r.len() - 1, r.last().push(s.last()))
        }
    }
}

proof fn lemma_split_on_nonempty(s: Seq<u8>, sep: u8)
    ensures
        split_on(s, sep).len() >= 1,
    decreases s.len(),
{
    if s.len() > 0 {
        lemma_split_on_nonempty(s.drop_last(), sep);
    }
}

/// The contents of a list of byte vectors.
pub open spec fn views(v: Seq<Vec<u8>>) -> Seq<Seq<u8>> {
    v.map_values(|x: Vec<u8>| x@)
}

/// Splits `s` at every `sep`.
pub fn split_bytes(s: &[u8], sep: u8) -> (r: Vec<Vec<u8>>)
    ensures
        views(r@) == split_on(s@, sep),
{
    let mut out: Vec<Vec<u8>> = Vec::new();
    let mut cur: Vec<u8> = Vec::new();
    let mut i: usize = 0;
    while i < s.len()
        invariant
            i <= s@.len(),
            views(out@).push(cur@) == split_on(s@.subrange(0, i as int), sep),
        decreases s@.len() - i,
    {
        let ghost prefix = s@.subrange(0, i + 1);
        assert(prefix.drop_last() =~= s@.subrange(0, i as int));
        proof {
            lemma_split_on_nonempty(s@.subrange(0, i as int), sep);
        }
        if s[i] == sep {
            let piece = cur;
            out.push(piece);
            cur = Vec::new();
            assert(views(out@).push(cur@) =~= split_on(prefix, sep));
        } else {
            cur.push(s[i]);
            assert(views(out@).push(cur@) =~= split_on(prefix, sep));
        }
        i = i + 1;
    }
    assert(s@.subrange(0, s@.len() as int) =~= s@);
    out.push(cur);
    assert(views(out@) =~= split_on(s@, sep));
    out
}

/// The line without a trailing carriage return.
pub open spec fn trim_cr(line: Seq<u8>) -> Seq<u8> {
    if line.len() > 0 && line.last() == 13u8 {
        line.drop_last()
    } else {
        line
    }
}

/// The value of a string of decimal digits.
pub open spec fn decimal_value(s: Seq<u8>) -> int
    decreases s.len(),
{
    if s.len() == 0 {
        0
    } else {
        decimal_value(s.drop_last()) * 10 + (s.last() - 48)
    }
}

/// Every byte is an ASCII digit.
pub open spec fn all_digits(s: Seq<u8>) -> bool {
    forall|i: int| 0 <= i < s.len() ==> 48 <= #[trigger] s[i] <= 57
}

/// The number written in `s`: one or more digits whose value fits in 64 bits.
pub open spec fn decimal_of(s: Seq<u8>) -> Option<u64> {
    if s.len() > 0 && all_digits(s) && decimal_value(s) <= u64::MAX {
        Some(decimal_value(s) as u64)
    } else {
        None
    }
}

proof fn lemma_decimal_value_grows(s: Seq<u8>, i: int)
    requires
        0 <= i <= s.len(),
        all_digits(s),
    ensures
        0 <= decimal_value(s.subrange(0, i)) <= decimal_value(s),
    decreases s.len() - i,
{
    if i < s.len() {
        lemma_decimal_value_grows(s, i + 1);
        assert(s.subrange(0, i + 1).drop_last() =~= s.subrange(0, i));
        assert(s[i] == s.subrange(0, i + 1).last());
    } else {
        assert(s.subrange(0, i) =~= s);
        lemma_decimal_value_nonneg(s);
    }
}

proof fn lemma_decimal_value_nonneg(s: Seq<u8>)
    requires
        all_digits(s),
    ensures
        decimal_value(s) >= 0,
    decreases s.len(),
{
    if s.len() > 0 {
        assert(all_digits(s.drop_last()));
        lemma_decimal_value_nonneg(s.drop_last());
        assert(48 <= s[s.len() - 1]);
    }
}

/// Reads a decimal number that fits in 64 bits.
pub fn parse_decimal(s: &Vec<u8>) -> (r: Option<u64>)
    ensures
        r == decimal_of(s@),
{
    if s.len() == 0 {
        return None;
    }
    let mut value: u64 = 0;
    let mut i: usize = 0;
    while i < s.len()
        invariant
            i <= s@.len(),
            all_digits(s@.subrange(0, i as int)),
            value == decimal_value(s@.subrange(0, i as int)),
        decreases s@.len() - i,
    {
        let ghost prefix = s@.subrange(0, i + 1);
        assert(prefix.drop_last() =~= s@.subrange(0, i as int));
        let b = s[i];
        if b < 48 || b > 57 {
            assert(!all_digits(s@));
            return None;
        }
        let next = match value.checked_mul(10) {
            Some(v) => v.checked_add((b - 48) as u64),
            None => None,
        };
        match next {
            Some(v) => {
                value = v;
            },
            None => {
                proof {
                    if all_digits(s@) {
                        lemma_decimal_value_grows(s@, i + 1);
                    }
                }
                return None;
            },
        }
        i = i + 1;
    }
    assert(s@.subrange(0, s@.len() as int) =~= s@);
    Some(value)
}

/// The 32-byte address written in base58 in `text`, if it is one.
pub uninterp spec fn pubkey_from_base58(text: Seq<u8>) -> Option<[u8; 32]>;

/// Relies on `FromStr` for `solana_program::pubkey::Pubkey`: decodes a base58
/// address of exactly 32 bytes, and fails on anything else (text that is not
/// UTF-8 fails too).
#[verifier::external_body]
fn decode_pubkey(text: &Vec<u8>) -> (r: Option<Pubkey>)
    ensures
        r == pubkey_from_base58(text@),
{
    match std::str::from_utf8(text) {
        Ok(s) => match <solana_program::pubkey::Pubkey as std::str::FromStr>::from_str(s) {
            Ok(k) => Some(k.to_bytes()),
            Err(_) => None,
        },
        Err(_) => None,
    }
}

/// Two byte strings are equal.
fn bytes_eq(a: &[u8], b: &[u8]) -> (r: bool)
    ensures
        r == (a@ == b@),
{
    if a.len() != b.len() {
        return false;
    }
    let mut i: usize = 0;
    while i < a.len()
        invariant
            a@.len() == b@.len(),
            i <= a@.len(),
            forall|j: int| 0 <= j < i ==> a@[j] == b@[j],
        decreases a@.len() - i,
    {
        if a[i] != b[i] {
            return false;
        }
        i = i + 1;
    }
    assert(a@ =~= b@);
    true
}

/// The header line of a recipient list.
pub open spec fn csv_header() -> Seq<u8> {
    "pubkey,amount_unlocked,amount_locked,category".spec_bytes()
}

/// The category named by `s`.
pub open spec fn category_of(s: Seq<u8>) -> Option<AirdropCategory> {
    if s == "Staker".spec_bytes() {
        Some(AirdropCategory::Staker)
    } else if s == "Validator".spec_bytes() {
        Some(AirdropCategory::Validator)
    } else if s == "Searcher".spec_bytes() {
        Some(AirdropCategory::Searcher)
    } else {
        None
    }
}

/// Reads a category name.
pub fn parse_category(s: &Vec<u8>) -> (r: Option<AirdropCategory>)
    ensures
        r == category_of(s@),
{
    if bytes_eq(s.as_slice(), "Staker".as_bytes()) {
        Some(AirdropCategory::Staker)
    } else if bytes_eq(s.as_slice(), "Validator".as_bytes()) {
        Some(AirdropCategory::Validator)
    } else if bytes_eq(s.as_slice(), "Searcher".as_bytes()) {
        Some(AirdropCategory::Searcher)
    } else {
        None
    }
}

/// The entry written on a line: four comma-separated fields, a base58
/// address, two decimal amounts and a category.
pub open spec fn row_of(line: Seq<u8>) -> Option<CsvEntry> {
    let f = split_on(line, 44u8);
    if f.len() != 4 {
        None
    } else {
        match (pubkey_from_base58(f[0]), decimal_of(f[1]), decimal_of(f[2]), category_of(f[3])) {
            (Some(pubkey), Some(amount_unlocked), Some(amount_locked), Some(category)) => Some(
                CsvEntry { pubkey, amount_unlocked, amount_locked, category },
            ),
            _ => None,
        }
    }
}

/// Reads one line as an entry.
pub fn parse_row(line: &Vec<u8>) -> (r: Option<CsvEntry>)
    ensures
        r == row_of(line@),
{
    let fields = split_bytes(line.as_slice(), 44u8);
    assert(views(fields@).len() == fields@.len());
    if fields.len() != 4 {
        return None;
    }
    assert(fields@[0]@ == views(fields@)[0]);
    assert(fields@[1]@ == views(fields@)[1]);
    assert(fields@[2]@ == views(fields@)[2]);
    assert(fields@[3]@ == views(fields@)[3]);
    let pubkey = decode_pubkey(&fields[0]);
    let amount_unlocked = parse_decimal(&fields[1]);
    let amount_locked = parse_decimal(&fields[2]);
    let category = parse_category(&fields[3]);
    match (pubkey, amount_unlocked, amount_locked, category) {
        (Some(pubkey), Some(amount_unlocked), Some(amount_locked), Some(category)) => Some(
            CsvEntry { pubkey, amount_unlocked, amount_locked, category },
        ),
        _ => None,
    }
}

/// The entries of lines `1..n`, empty lines skipped, or the first bad line.
pub open spec fn entries_of_lines(lines: Seq<Seq<u8>>, n: int) -> Result<Seq<CsvEntry>, CsvError>
    decreases n,
{
    if n <= 1 {
        Ok(seq![])
    } else {
        match entries_of_lines(lines, n - 1) {
            Err(e) => Err(e),
            Ok(es) => {
                let line = trim_cr(lines[n - 1]);
                if line.len() == 0 {
                    Ok(es)
                } else {
                    match row_of(line) {
                        Some(e) => Ok(es.push(e)),
                        None => Err(CsvError::InvalidRow((n - 1) as usize)),
                    }
                }
            },
        }
    }
}

/// The entries of a recipient list: its lines, the header first.
pub open spec fn csv_entries(text: Seq<u8>) -> Result<Seq<CsvEntry>, CsvError> {
    let lines = split_on(text, 10u8);
    if trim_cr(lines[0]) != csv_header() {
        Err(CsvError::MissingHeader)
    } else {
        entries_of_lines(lines, lines.len() as int)
    }
}

/// The line with a trailing carriage return removed.
fn trimmed(line: &Vec<u8>) -> (r: Vec<u8>)
    ensures
        r@ == trim_cr(line@),
{
    let mut out: Vec<u8> = Vec::new();
    let n: usize = if line.len() > 0 && line[line.len() - 1] == 13u8 {
        line.len() - 1
    } else {
        line.len()
    };
    let mut i: usize = 0;
    while i < n
        invariant
            n <= line@.len(),
            i <= n,
            out@ =~= line@.subrange(0, i as int),
        decreases n - i,
    {
        out.push(line[i]);
        i = i + 1;
    }
    assert(out@ =~= trim_cr(line@));
    out
}

/// Reads a recipient list.
pub fn parse_csv(text: &[u8]) -> (r: Result<Vec<CsvEntry>, CsvError>)
    ensures
        match csv_entries(text@) {
            Ok(es) => r matches Ok(v) && v@ == es,
            Err(e) => r == Err::<Vec<CsvEntry>, CsvError>(e),
        },
{
    let lines = split_bytes(text, 10u8);
    proof {
        lemma_split_on_nonempty(text@, 10u8);
    }
    assert(lines@[0]@ == views(lines@)[0]);
    let header = trimmed(&lines[0]);
    if !bytes_eq(header.as_slice(), "pubkey,amount_unlocked,amount_locked,category".as_bytes()) {
        return Err(CsvError::MissingHeader);
    }
    let mut entries: Vec<CsvEntry> = Vec::new();
    let mut i: usize = 1;
    while i < lines.len()
        invariant
            1 <= i <= lines@.len(),
            views(lines@) == split_on(text@, 10u8),
            trim_cr(views(lines@)[0]) == csv_header(),
            entries_of_lines(views(lines@), i as int) == Ok::<Seq<CsvEntry>, CsvError>(entries@),
        decreases lines@.len() - i,
    {
        assert(lines@[i as int]@ == views(lines@)[i as int]);
        let line = trimmed(&lines[i]);
        if line.len() > 0 {
            match parse_row(&line) {
                Some(e) => {
                    entries.push(e);
                },
                None => {
                    assert(entries_of_lines(views(lines@), i + 1) == Err::<Seq<CsvEntry>, CsvError>(
                        CsvError::InvalidRow(i),
                    ));
                    proof {
                        lemma_entries_error_persists(views(lines@), i + 1, lines@.len() as int);
                        assert(views(lines@).len() == lines@.len());
                        assert(trim_cr(views(lines@)[0]) == csv_header());
                    }
                    return Err(CsvError::InvalidRow(i));
                },
            }
        }
        i = i + 1;
    }
    Ok(entries)
}

/// Once a line is bad, so is every longer prefix of lines.
proof fn lemma_entries_error_persists(lines: Seq<Seq<u8>>, n: int, m: int)
    requires
        1 <= n <= m,
        entries_of_lines(lines, n) is Err,
    ensures
        entries_of_lines(lines, m) == entries_of_lines(lines, n),
    decreases m - n,
{
    if n < m {
        lemma_entries_error_persists(lines, n, m - 1);
    }
}

/// The claimants of `es`, each once, in order of first appearance.
pub open spec fn distinct_claimants(es: Seq<CsvEntry>) -> Seq<Pubkey>
    decreases es.len(),
{
    if es.len() == 0 {
        seq![]
    } else {
        let d = distinct_claimants(es.drop_last());
        if d.contains(es.last().pubkey) {
            d
        } else {
            d.push(es.last().pubkey)
        }
    }
}

/// What entry `e` adds to `k`'s locked (or unlocked) amount in category `c`.
pub open spec fn contribution(e: CsvEntry, k: Pubkey, c: AirdropCategory, locked: bool) -> int {
    if e.pubkey == k && e.category == c {
        if locked {
            e.amount_locked as int
        } else {
            e.amount_unlocked as int
        }
    } else {
        0
    }
}

/// The sum over `es` of `k`'s locked (or unlocked) amounts in category `c`.
pub open spec fn amount_sum(es: Seq<CsvEntry>, k: Pubkey, c: AirdropCategory, locked: bool) -> int
    decreases es.len(),
{
    if es.len() == 0 {
        0
    } else {
        amount_sum(es.drop_last(), k, c, locked) + contribution(es.last(), k, c, locked)
    }
}

/// Every per-claimant, per-category sum fits in 64 bits.
pub open spec fn sums_fit(es: Seq<CsvEntry>) -> bool {
    forall|k: Pubkey, c: AirdropCategory, locked: bool| #[trigger] amount_sum(es, k, c, locked) <= u64::MAX
}

/// The recipients that a list of entries describes: one per claimant, in
/// order of first appearance, with its sums per category and no proof yet.
pub open spec fn recipients_of(es: Seq<CsvEntry>) -> Seq<TreeNode> {
    let d = distinct_claimants(es);
    Seq::new(
        d.len(),
        |i: int|
            TreeNode {
                claimant: d[i],
                total_unlocked_staker: amount_sum(es, d[i], AirdropCategory::Staker, false) as u64,
                total_locked_staker: amount_sum(es, d[i], AirdropCategory::Staker, true) as u64,
                total_unlocked_searcher: amount_sum(es, d[i], AirdropCategory::Searcher, false) as u64,
                total_locked_searcher: amount_sum(es, d[i], AirdropCategory::Searcher, true) as u64,
                total_unlocked_validator: amount_sum(es, d[i], AirdropCategory::Validator, false) as u64,
                total_locked_validator: amount_sum(es, d[i], AirdropCategory::Validator, true) as u64,
                proof: None,
            },
    )
}

/// `n` holds `k`'s sums over `es` in every category, and no proof.
pub open spec fn node_matches(n: TreeNode, es: Seq<CsvEntry>, k: Pubkey) -> bool {
    &&& n.claimant == k
    &&& n.total_unlocked_staker == amount_sum(es, k, AirdropCategory::Staker, false)
    &&& n.total_locked_staker == amount_sum(es, k, AirdropCategory::Staker, true)
    &&& n.total_unlocked_searcher == amount_sum(es, k, AirdropCategory::Searcher, false)
    &&& n.total_locked_searcher == amount_sum(es, k, AirdropCategory::Searcher, true)
    &&& n.total_unlocked_validator == amount_sum(es, k, AirdropCategory::Validator, false)
    &&& n.total_locked_validator == amount_sum(es, k, AirdropCategory::Validator, true)
    &&& n.proof is None
}

proof fn lemma_amount_sum_facts(es: Seq<CsvEntry>, k: Pubkey, c: AirdropCategory, locked: bool, i: int)
    requires
        0 <= i <= es.len(),
    ensures
        0 <= amount_sum(es.subrange(0, i), k, c, locked) <= amount_sum(es, k, c, locked),
        !distinct_claimants(es).contains(k) ==> amount_sum(es, k, c, locked) == 0,
    decreases es.len(),
{
    if es.len() > 0 {
        let init = es.drop_last();
        lemma_amount_sum_facts(init, k, c, locked, if i < es.len() { i } else { 0 });
        if i < es.len() {
            assert(init.subrange(0, i) =~= es.subrange(0, i));
        } else {
            assert(es.subrange(0, i) =~= es);
            assert(init.subrange(0, 0) =~= es.subrange(0, 0));
        }
        if !distinct_claimants(es).contains(k) {
            let d = distinct_claimants(init);
            if d.contains(k) {
                if d.contains(es.last().pubkey) {
                } else {
                    let j = choose|j: int| 0 <= j < d.len() && d[j] == k;
                    assert(d.push(es.last().pubkey)[j] == k);
                }
            }
            if es.last().pubkey == k {
                if !d.contains(es.last().pubkey) {
                    assert(d.push(es.last().pubkey)[d.len() as int] == k);
                }
            }
        }
    } else {
        assert(es.subrange(0, i) =~= es);
    }
}

proof fn lemma_distinct_claimants_unique(es: Seq<CsvEntry>)
    ensures
        distinct_claimants(es).no_duplicates(),
    decreases es.len(),
{
    if es.len() > 0 {
        lemma_distinct_claimants_unique(es.drop_last());
    }
}

/// Per-category amounts of one claimant, while they are being summed.
#[derive(Clone, Copy)]
struct CategoryTotals {
    unlocked_staker: u64,
    locked_staker: u64,
    unlocked_searcher: u64,
    locked_searcher: u64,
    unlocked_validator: u64,
    locked_validator: u64,
}

spec fn totals_match(t: CategoryTotals, es: Seq<CsvEntry>, k: Pubkey) -> bool {
    &&& t.unlocked_staker == amount_sum(es, k, AirdropCategory::Staker, false)
    &&& t.locked_staker == amount_sum(es, k, AirdropCategory::Staker, true)
    &&& t.unlocked_searcher == amount_sum(es, k, AirdropCategory::Searcher, false)
    &&& t.locked_searcher == amount_sum(es, k, AirdropCategory::Searcher, true)
    &&& t.unlocked_validator == amount_sum(es, k, AirdropCategory::Validator, false)
    &&& t.locked_validator == amount_sum(es, k, AirdropCategory::Validator, true)
}

/// Adds an entry of `t`'s claimant, unless a sum overflows.
fn add_entry(t: CategoryTotals, e: &CsvEntry) -> (r: Option<CategoryTotals>)
    ensures
        r matches Some(n) ==> forall|es: Seq<CsvEntry>|
            #[trigger] totals_match(t, es, e.pubkey) ==> totals_match(n, es.push(*e), e.pubkey),
        r is None ==> exists|locked: bool|
            #[trigger] total_field(t, e.category, locked) + contribution(*e, e.pubkey, e.category, locked) > u64::MAX,
{
    let mut n = t;
    let (u, l) = match e.category {
        AirdropCategory::Staker => (t.unlocked_staker.checked_add(e.amount_unlocked), t.locked_staker.checked_add(e.amount_locked)),
        AirdropCategory::Searcher => (t.unlocked_searcher.checked_add(e.amount_unlocked), t.locked_searcher.checked_add(e.amount_locked)),
        AirdropCategory::Validator => (t.unlocked_validator.checked_add(e.amount_unlocked), t.locked_validator.checked_add(e.amount_locked)),
    };
    let (u, l) = match (u, l) {
        (Some(u), Some(l)) => (u, l),
        (None, _) => {
            assert(total_field(t, e.category, false) + contribution(*e, e.pubkey, e.category, false) > u64::MAX);
            return None;
        },
        (_, None) => {
            assert(total_field(t, e.category, true) + contribution(*e, e.pubkey, e.category, true) > u64::MAX);
            return None;
        },
    };
    match e.category {
        AirdropCategory::Staker => {
            n.unlocked_staker = u;
            n.locked_staker = l;
        },
        AirdropCategory::Searcher => {
            n.unlocked_searcher = u;
            n.locked_searcher = l;
        },
        AirdropCategory::Validator => {
            n.unlocked_validator = u;
            n.locked_validator = l;
        },
    }
    assert forall|es: Seq<CsvEntry>| #[trigger] totals_match(t, es, e.pubkey) implies totals_match(n, es.push(*e), e.pubkey) by {
        assert(es.push(*e).drop_last() =~= es);
    }
    Some(n)
}

/// The field of `t` that sums category `c`'s locked (or unlocked) amounts.
spec fn total_field(t: CategoryTotals, c: AirdropCategory, locked: bool) -> int {
    match c {
        AirdropCategory::Staker => if locked { t.locked_staker as int } else { t.unlocked_staker as int },
        AirdropCategory::Searcher => if locked { t.locked_searcher as int } else { t.unlocked_searcher as int },
        AirdropCategory::Validator => if locked { t.locked_validator as int } else { t.unlocked_validator as int },
    }
}

/// The position of `k` in `claimants`, if it is there.
fn find_claimant(claimants: &Vec<Pubkey>, k: &Pubkey) -> (r: Option<usize>)
    ensures
        r matches Some(j) ==> j < claimants@.len() && claimants@[j as int] == *k,
        r is None ==> !claimants@.contains(*k),
{
    let mut j: usize = 0;
    while j < claimants.len()
        invariant
            j <= claimants@.len(),
            forall|m: int| 0 <= m < j ==> claimants@[m] != *k,
        decreases claimants@.len() - j,
    {
        if hash_eq(&claimants[j], k) {
            return Some(j);
        }
        j = j + 1;
    }
    None
}

proof fn lemma_totals_match_other(t: CategoryTotals, es: Seq<CsvEntry>, e: CsvEntry, k: Pubkey)
    requires
        k != e.pubkey,
        totals_match(t, es, k),
    ensures
        totals_match(t, es.push(e), k),
{
    assert(es.push(e).drop_last() =~= es);
}

/// Merges the entries of each claimant into one recipient, claimants in order
/// of first appearance, amounts summed per category.
pub fn aggregate_entries(entries: &Vec<CsvEntry>) -> (r: Result<Vec<TreeNode>, CsvError>)
    ensures
        r is Err <==> !sums_fit(entries@),
        r is Err ==> r == Err::<Vec<TreeNode>, CsvError>(CsvError::AmountOverflow),
        r matches Ok(nodes) ==> nodes@ == recipients_of(entries@),
{
    let ghost es = entries@;
    let mut claimants: Vec<Pubkey> = Vec::new();
    let mut totals: Vec<CategoryTotals> = Vec::new();
    let mut i: usize = 0;
    while i < entries.len()
        invariant
            es == entries@,
            i <= es.len(),
            claimants@ == distinct_claimants(es.subrange(0, i as int)),
            totals@.len() == claimants@.len(),
            forall|j: int| 0 <= j < totals@.len() ==> #[trigger] totals_match(totals@[j], es.subrange(0, i as int), claimants@[j]),
        decreases es.len() - i,
    {
        let ghost prefix = es.subrange(0, i as int);
        let ghost next = es.subrange(0, i + 1);
        assert(next =~= prefix.push(es[i as int]));
        assert(next.drop_last() =~= prefix);
        let e = &entries[i];
        proof {
            lemma_distinct_claimants_unique(prefix);
        }
        let found = find_claimant(&claimants, &e.pubkey);
        let (idx, base) = match found {
            Some(j) => (j, totals[j]),
            None => {
                proof {
                    assert(!distinct_claimants(prefix).contains(e.pubkey));
                    lemma_amount_sum_facts(prefix, e.pubkey, AirdropCategory::Staker, false, 0);
                    lemma_amount_sum_facts(prefix, e.pubkey, AirdropCategory::Staker, true, 0);
                    lemma_amount_sum_facts(prefix, e.pubkey, AirdropCategory::Searcher, false, 0);
                    lemma_amount_sum_facts(prefix, e.pubkey, AirdropCategory::Searcher, true, 0);
                    lemma_amount_sum_facts(prefix, e.pubkey, AirdropCategory::Validator, false, 0);
                    lemma_amount_sum_facts(prefix, e.pubkey, AirdropCategory::Validator, true, 0);
                }
                claimants.push(e.pubkey);
                let zero = CategoryTotals {
                    unlocked_staker: 0,
                    locked_staker: 0,
                    unlocked_searcher: 0,
                    locked_searcher: 0,
                    unlocked_validator: 0,
                    locked_validator: 0,
                };
                totals.push(zero);
                (totals.len() - 1, zero)
            },
        };
        assert(totals_match(base, prefix, e.pubkey));
        match add_entry(base, e) {
            Some(t) => {
                let ghost old_totals = totals@;
                totals.set(idx, t);
                assert forall|m: int| 0 <= m < totals@.len() implies #[trigger] totals_match(totals@[m], next, claimants@[m]) by {
                    if m == idx {
                        assert(claimants@[m] == e.pubkey);
                    } else {
                        assert(claimants@[m] != e.pubkey);
                        lemma_totals_match_other(old_totals[m], prefix, *e, claimants@[m]);
                    }
                }
            },
            None => {
                proof {
                    let locked = choose|locked: bool|
                        #[trigger] total_field(base, e.category, locked) + contribution(*e, e.pubkey, e.category, locked) > u64::MAX;
                    assert(amount_sum(next, e.pubkey, e.category, locked) > u64::MAX);
                    lemma_amount_sum_facts(es, e.pubkey, e.category, locked, i + 1);
                    assert(amount_sum(es, e.pubkey, e.category, locked) > u64::MAX);
                }
                return Err(CsvError::AmountOverflow);
            },
        }
        i = i + 1;
    }
    assert(es.subrange(0, es.len() as int) =~= es);
    let mut nodes: Vec<TreeNode> = Vec::new();
    let mut k: usize = 0;
    while k < totals.len()
        invariant
            es == entries@,
            claimants@ == distinct_claimants(es),
            totals@.len() == claimants@.len(),
            forall|j: int| 0 <= j < totals@.len() ==> #[trigger] totals_match(totals@[j], es, claimants@[j]),
            k <= totals@.len(),
            nodes@.len() == k,
            forall|j: int| 0 <= j < k ==> #[trigger] node_matches(nodes@[j], es, claimants@[j]),
        decreases totals@.len() - k,
    {
        let t = totals[k];
        assert(totals_match(totals@[k as int], es, claimants@[k as int]));
        nodes.push(
            TreeNode {
                claimant: claimants[k],
                total_unlocked_staker: t.unlocked_staker,
                total_locked_staker: t.locked_staker,
                total_unlocked_searcher: t.unlocked_searcher,
                total_locked_searcher: t.locked_searcher,
                total_unlocked_validator: t.unlocked_validator,
                total_locked_validator: t.locked_validator,
                proof: None,
            },
        );
        k = k + 1;
    }
    proof {
        assert forall|key: Pubkey, c: AirdropCategory, locked: bool| #[trigger] amount_sum(es, key, c, locked) <= u64::MAX by {
            lemma_amount_sum_facts(es, key, c, locked, 0);
            if distinct_claimants(es).contains(key) {
                let j = choose|j: int| 0 <= j < claimants@.len() && claimants@[j] == key;
                assert(totals_match(totals@[j], es, claimants@[j]));
                assert(amount_sum(es, key, c, locked) == total_field(totals@[j], c, locked));
            }
        }
        assert forall|j: int| 0 <= j < nodes@.len() implies #[trigger] nodes@[j] == recipients_of(es)[j] by {
            assert(node_matches(nodes@[j], es, claimants@[j]));
            let key = claimants@[j];
            assert(amount_sum(es, key, AirdropCategory::Staker, false) <= u64::MAX);
            assert(amount_sum(es, key, AirdropCategory::Staker, true) <= u64::MAX);
            assert(amount_sum(es, key, AirdropCategory::Searcher, false) <= u64::MAX);
            assert(amount_sum(es, key, AirdropCategory::Searcher, true) <= u64::MAX);
            assert(amount_sum(es, key, AirdropCategory::Validator, false) <= u64::MAX);
            assert(amount_sum(es, key, AirdropCategory::Validator, true) <= u64::MAX);
        }
        assert(nodes@ =~= recipients_of(es));
    }
    Ok(nodes)
}

} // verus!
