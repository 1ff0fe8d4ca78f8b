//! The search over listed credentials: which of them name a query in their
//! account or website, whatever the case of the letters.

use crate::text::chars_of;
use vstd::prelude::*;

verus! {

/// The lowercase form of a text, as `str::to_lowercase` gives it.
pub uninterp spec fn lowercase(text: Seq<char>) -> Seq<char>;

/// Calls `str::to_lowercase`. Trusted: the result depends on the text alone.
#[verifier::external_body]
fn to_lowercase(text: &str) -> (lower: String)
    ensures
        lower@ == lowercase(text@),
{
    text.to_lowercase()
}

/// Whether `needle` stands in `hay` from the position `at` on.
pub open spec fn occurs_at(needle: Seq<char>, hay: Seq<char>, at: int) -> bool {
    0 <= at && at + needle.len() <= hay.len() && hay.subrange(at, at + needle.len()) == needle
}

/// Whether `needle` stands somewhere in `hay`. The empty text stands in every
/// text.
pub open spec fn occurs_in(needle: Seq<char>, hay: Seq<char>) -> bool {
    exists|at: int| occurs_at(needle, hay, at)
}

/// Whether a credential with this account and website matches `query`: the
/// lowercase query stands in the lowercase account or in the lowercase
/// website.
pub open spec fn matches_query(account: Seq<char>, website: Seq<char>, query: Seq<char>) -> bool {
    occurs_in(lowercase(query), lowercase(account)) || occurs_in(
        lowercase(query),
        lowercase(website),
    )
}

/// Whether `needle` stands in `hay` from the position `at` on.
fn stands_at(needle: &Vec<char>, hay: &Vec<char>, at: usize) -> (found: bool)
    requires
        at + needle@.len() <= hay@.len(),
    ensures
        found == occurs_at(needle@, hay@, at as int),
{
    let len = hay.len();
    let mut k: usize = 0;
    while k < needle.len()
        invariant
            k <= needle@.len(),
            at + needle@.len() <= hay@.len() == len,
            forall|j: int| 0 <= j < k ==> hay@[at + j] == needle@[j],
        decreases needle@.len() - k,
    {
        if hay[at + k] != needle[k] {
            assert(hay@.subrange(at as int, at + needle@.len())[k as int] != needle@[k as int]);
            return false;
        }
        k += 1;
    }
    assert(hay@.subrange(at as int, at + needle@.len()) =~= needle@);
    true
}

/// Whether `needle` stands somewhere in `hay`.
pub fn contains_text(hay: &Vec<char>, needle: &Vec<char>) -> (found: bool)
    ensures
        found == occurs_in(needle@, hay@),
{
    if needle.len() > hay.len() {
        return false;
    }
    let last = hay.len() - needle.len();
    let mut at: usize = 0;
    loop
        invariant
            at <= last,
            last == hay@.len() - needle@.len(),
            forall|j: int| 0 <= j < at ==> !occurs_at(needle@, hay@, j),
        decreases last - at,
    {
        if stands_at(needle, hay, at) {
            return true;
        }
        if at == last {
            return false;
        }
        at += 1;
    }
}

/// Whether one listed credential matches the query, whose lowercase
/// characters are `query_lower`.
fn entry_matches(account: &str, website: &str, query_lower: &Vec<char>) -> (found: bool)
    ensures
        found == (occurs_in(query_lower@, lowercase(account@)) || occurs_in(
            query_lower@,
            lowercase(website@),
        )),
{
    let account_lower = chars_of(to_lowercase(account).as_str());
    if contains_text(&account_lower, query_lower) {
        return true;
    }
    let website_lower = chars_of(to_lowercase(website).as_str());
    contains_text(&website_lower, query_lower)
}

/// The positions up to `count` at which account and website match `query`,
/// in rising order.
pub open spec fn matching_positions(
    accounts: Seq<Seq<char>>,
    websites: Seq<Seq<char>>,
    query: Seq<char>,
    count: int,
) -> Seq<usize>
    decreases count,
{
    if count <= 0 {
        seq![]
    } else if matches_query(accounts[count - 1], websites[count - 1], query) {
        matching_positions(accounts, websites, query, count - 1).push((count - 1) as usize)
    } else {
        matching_positions(accounts, websites, query, count - 1)
    }
}

/// The positions of the listed credentials that match `query`, in rising
/// order. `accounts` and `websites` are listed in parallel; a position that
/// only one of them has is left out.
pub fn matching_entries(accounts: &Vec<String>, websites: &Vec<String>, query: &str) -> (positions:
    Vec<usize>)
    ensures
        positions@ == matching_positions(
            crate::text::views(accounts@),
            crate::text::views(websites@),
            query@,
            if accounts@.len() <= websites@.len() {
                accounts@.len() as int
            } else {
                websites@.len() as int
            },
        ),
{
    let count = if accounts.len() <= websites.len() {
        accounts.len()
    } else {
        websites.len()
    };
    let query_lower = chars_of(to_lowercase(query).as_str());
    let mut positions: Vec<usize> = Vec::new();
    let mut i: usize = 0;
    while i < count
        invariant
            i <= count,
            count <= accounts@.len(),
            count <= websites@.len(),
            query_lower@ == lowercase(query@),
            positions@ == matching_positions(
                crate::text::views(accounts@),
                crate::text::views(websites@),
                query@,
                i as int,
            ),
        decreases count - i,
    {
        assert(crate::text::views(accounts@)[i as int] == accounts@[i as int]@);
        assert(crate::text::views(websites@)[i as int] == websites@[i as int]@);
        if entry_matches(accounts[i].as_str(), websites[i].as_str(), &query_lower) {
            positions.push(i);
        }
        i += 1;
    }
    positions
}

} // verus!
