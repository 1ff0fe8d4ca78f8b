//! Random passwords, and the rating of a passphrase's strength.

use crate::text::{chars_of, push_message, same_text, views};
use rand::rngs::StdRng;
use rand::{Rng, SeedableRng};
use vstd::prelude::*;
use vstd::string::StrSliceExecFns;
use vstd::utf8::encode_utf8;

verus! {

/// The random generator that passwords are drawn from.
#[verifier::external_type_specification]
#[verifier::external_body]
pub struct ExStdRng(StdRng);

/// The highest rating a passphrase can get.
pub const MAX_RATING: u32 = 50;

/// The fewest bytes a passphrase may have without being rated too short.
pub const MIN_LENGTH: usize = 8;

/// The fewest distinct characters that earn the points for variety.
pub const MIN_DISTINCT: usize = 6;

/// The number of characters that a generated password draws from.
pub const POOL_LEN: usize = 88;

/// Whether `char::is_uppercase` holds of `c`.
pub uninterp spec fn char_is_uppercase(c: char) -> bool;

/// Whether `char::is_lowercase` holds of `c`.
pub uninterp spec fn char_is_lowercase(c: char) -> bool;

/// Whether `char::is_numeric` holds of `c`.
pub uninterp spec fn char_is_numeric(c: char) -> bool;

/// Whether `char::is_alphanumeric` holds of `c`.
pub uninterp spec fn char_is_alphanumeric(c: char) -> bool;

/// A kind of character that a strong passphrase holds at least one of.
#[derive(Clone, Copy, Debug, PartialEq, Eq, Structural)]
pub enum CharClass {
    /// An uppercase letter.
    Uppercase,
    /// A lowercase letter.
    Lowercase,
    /// A numeric character.
    Number,
    /// Anything that is neither a letter nor numeric.
    Special,
}

/// Whether `c` belongs to `class`.
pub open spec fn in_class(c: char, class: CharClass) -> bool {
    match class {
        CharClass::Uppercase => char_is_uppercase(c),
        CharClass::Lowercase => char_is_lowercase(c),
        CharClass::Number => char_is_numeric(c),
        CharClass::Special => !char_is_alphanumeric(c),
    }
}

/// Whether some character of `password` belongs to `class`.
pub open spec fn has_class(password: Seq<char>, class: CharClass) -> bool {
    exists|i: int| 0 <= i < password.len() && in_class(#[trigger] password[i], class)
}

/// The number of different characters in `password`.
pub open spec fn distinct_chars(password: Seq<char>) -> nat {
    password.to_set().len()
}

/// Whether `password` is one of the listed common passwords.
pub open spec fn is_listed(common_passwords: Seq<Seq<char>>, password: Seq<char>) -> bool {
    common_passwords.contains(password)
}

/// The finding for a passphrase on the list of common passwords.
pub open spec fn common_message() -> Seq<char> {
    "This password is on a common password list"@
}

/// The finding for a passphrase of fewer than `MIN_LENGTH` bytes.
pub open spec fn short_message() -> Seq<char> {
    "This password is too short"@
}

/// The finding for a passphrase of fewer than `MIN_DISTINCT` different
/// characters.
pub open spec fn distinct_message() -> Seq<char> {
    "This password has too few distinct characters"@
}

/// The finding for a passphrase that lacks a character of `class`.
pub open spec fn class_message(class: CharClass) -> Seq<char> {
    match class {
        CharClass::Uppercase => "This password has no uppercase letters"@,
        CharClass::Lowercase => "This password has no lowercase letters"@,
        CharClass::Number => "This password has no numbers"@,
        CharClass::Special => "This password has no special characters"@,
    }
}

/// The points that `password` earns for holding a character of `class`.
pub open spec fn class_points(password: Seq<char>, class: CharClass) -> nat {
    if has_class(password, class) {
        5
    } else {
        0
    }
}

/// The findings on `password` for lacking a character of `class`: one
/// message or none.
pub open spec fn class_findings(password: Seq<char>, class: CharClass) -> Seq<Seq<char>> {
    if has_class(password, class) {
        seq![]
    } else {
        seq![class_message(class)]
    }
}

/// The rating of `password`, where `listed` says whether it is a common
/// password: 0 for a common one, 10 for one that is too short, else 20 plus
/// 10 for variety plus 5 for each class of character present.
pub open spec fn safety_rating(password: Seq<char>, listed: bool) -> nat {
    if listed {
        0
    } else if encode_utf8(password).len() < MIN_LENGTH {
        10
    } else {
        20 + (if distinct_chars(password) >= MIN_DISTINCT {
            10nat
        } else {
            0nat
        }) + class_points(password, CharClass::Uppercase) + class_points(
            password,
            CharClass::Lowercase,
        ) + class_points(password, CharClass::Number) + class_points(password, CharClass::Special)
    }
}

/// The findings on `password`, in the order in which the checks are made.
pub open spec fn safety_messages(password: Seq<char>, listed: bool) -> Seq<Seq<char>> {
    if listed {
        seq![common_message()]
    } else if encode_utf8(password).len() < MIN_LENGTH {
        seq![short_message()]
    } else {
        (if distinct_chars(password) >= MIN_DISTINCT {
            seq![]
        } else {
            seq![distinct_message()]
        }) + class_findings(password, CharClass::Uppercase) + class_findings(
            password,
            CharClass::Lowercase,
        ) + class_findings(password, CharClass::Number) + class_findings(
            password,
            CharClass::Special,
        )
    }
}

/// Calls `char::is_uppercase`. Trusted: the answer depends on the character
/// alone.
#[verifier::external_body]
fn is_uppercase(c: char) -> (yes: bool)
    ensures
        yes == char_is_uppercase(c),
{
    c.is_uppercase()
}

/// Calls `char::is_lowercase`. Trusted: the answer depends on the character
/// alone.
#[verifier::external_body]
fn is_lowercase(c: char) -> (yes: bool)
    ensures
        yes == char_is_lowercase(c),
{
    c.is_lowercase()
}

/// Calls `char::is_numeric`. Trusted: the answer depends on the character
/// alone.
#[verifier::external_body]
fn is_numeric(c: char) -> (yes: bool)
    ensures
        yes == char_is_numeric(c),
{
    c.is_numeric()
}

/// Calls `char::is_alphanumeric`. Trusted: the answer depends on the
/// character alone.
#[verifier::external_body]
fn is_alphanumeric(c: char) -> (yes: bool)
    ensures
        yes == char_is_alphanumeric(c),
{
    c.is_alphanumeric()
}

/// Whether `c` belongs to `class`.
pub fn char_in_class(c: char, class: CharClass) -> (yes: bool)
    ensures
        yes == in_class(c, class),
{
    match class {
        CharClass::Uppercase => is_uppercase(c),
        CharClass::Lowercase => is_lowercase(c),
        CharClass::Number => is_numeric(c),
        CharClass::Special => !is_alphanumeric(c),
    }
}

/// Whether some character of `chars` belongs to `class`.
pub fn contains_class(chars: &Vec<char>, class: CharClass) -> (found: bool)
    ensures
        found == has_class(chars@, class),
{
    let mut i: usize = 0;
    while i < chars.len()
        invariant
            i <= chars@.len(),
            forall|j: int| 0 <= j < i ==> !in_class(#[trigger] chars@[j], class),
        decreases chars@.len() - i,
    {
        if char_in_class(chars[i], class) {
            return true;
        }
        i += 1;
    }
    false
}

/// Whether `password` is one of `common_passwords`.
pub fn is_common_password(password: &str, common_passwords: &Vec<String>) -> (listed: bool)
    ensures
        listed == is_listed(views(common_passwords@), password@),
{
    let mut i: usize = 0;
    while i < common_passwords.len()
        invariant
            i <= common_passwords@.len(),
            forall|j: int| 0 <= j < i ==> views(common_passwords@)[j] != password@,
        decreases common_passwords@.len() - i,
    {
        if same_text(common_passwords[i].as_str(), password) {
            assert(views(common_passwords@)[i as int] == password@);
            return true;
        }
        i += 1;
    }
    false
}

/// The characters among the first `i + 1` of `s` are those among the first
/// `i` together with `s[i]`.
pub proof fn lemma_take_to_set(s: Seq<char>, i: int)
    requires
        0 <= i < s.len(),
    ensures
        s.take(i).to_set().finite(),
        s.take(i + 1).to_set() == s.take(i).to_set().insert(s[i]),
{
    vstd::seq_lib::seq_to_set_is_finite(s.take(i));
    let longer = s.take(i + 1);
    let shorter = s.take(i);
    assert forall|c: char| longer.to_set().contains(c) <==> shorter.to_set().insert(
        s[i],
    ).contains(c) by {
        if longer.contains(c) {
            let k = choose|k: int| 0 <= k < longer.len() && longer[k] == c;
            if k < i {
                assert(shorter[k] == c);
            }
        }
        if shorter.contains(c) {
            let k = choose|k: int| 0 <= k < shorter.len() && shorter[k] == c;
            assert(longer[k] == c);
        }
        if c == s[i] {
            assert(longer[i] == c);
        }
    }
    assert(longer.to_set() =~= shorter.to_set().insert(s[i]));
}

/// Counts the different characters in `chars`.
pub fn count_distinct(chars: &Vec<char>) -> (count: usize)
    ensures
        count == distinct_chars(chars@),
{
    let mut count: usize = 0;
    let mut i: usize = 0;
    assert(chars@.take(0).to_set() =~= Set::<char>::empty());
    while i < chars.len()
        invariant
            i <= chars@.len(),
            count <= i,
            count == chars@.take(i as int).to_set().len(),
        decreases chars@.len() - i,
    {
        let c = chars[i];
        let mut seen = false;
        let mut j: usize = 0;
        while j < i
            invariant
                j <= i,
                i < chars@.len(),
                c == chars@[i as int],
                seen == exists|k: int| 0 <= k < j && chars@[k] == c,
            decreases i - j,
        {
            if chars[j] == c {
                seen = true;
            }
            j += 1;
        }
        proof {
            lemma_take_to_set(chars@, i as int);
            let before = chars@.take(i as int);
            if seen {
                let k = choose|k: int| 0 <= k < i && chars@[k] == c;
                assert(before[k] == c);
                assert(before.to_set().contains(c));
                assert(before.to_set().insert(c) =~= before.to_set());
            } else {
                if before.contains(c) {
                    let k = choose|k: int| 0 <= k < before.len() && before[k] == c;
                    assert(chars@[k] == c);
                }
                assert(!before.to_set().contains(c));
            }
        }
        if !seen {
            count += 1;
        }
        i += 1;
    }
    assert(chars@.take(chars@.len() as int) =~= chars@);
    count
}

/// Rates `password` from 0 to `MAX_RATING` and lists what is wrong with it.
///
/// `common_passwords` is the list of known weak passwords. A password on it
/// is rated 0 and one of fewer than `MIN_LENGTH` bytes 10, each with a single
/// finding. Any other starts from 20 and earns 10 for `MIN_DISTINCT` or more
/// different characters and 5 for each of: an uppercase letter, a lowercase
/// letter, a number, a special character; every check that fails adds its
/// finding.
pub fn check_password_safety(password: &str, common_passwords: &Vec<String>) -> (result: (
    u32,
    Vec<String>,
))
    ensures
        result.0 == safety_rating(password@, is_listed(views(common_passwords@), password@)),
        views(result.1@) == safety_messages(
            password@,
            is_listed(views(common_passwords@), password@),
        ),
        result.0 <= MAX_RATING,
{
    let mut safety_rating: u32 = 0;
    let mut safety_message: Vec<String> = Vec::new();
    assert(views(safety_message@) =~= Seq::<Seq<char>>::empty());

    if is_common_password(password, common_passwords) {
        push_message(&mut safety_message, "This password is on a common password list");
        assert(views(safety_message@) =~= seq![common_message()]);
        return (0, safety_message);
    } else {
        safety_rating += 15;
    }

    if password.as_bytes().len() >= MIN_LENGTH {
        safety_rating += 5;
    } else {
        push_message(&mut safety_message, "This password is too short");
        assert(views(safety_message@) =~= seq![short_message()]);
        return (10, safety_message);
    }

    let chars = chars_of(password);
    if count_distinct(&chars) >= MIN_DISTINCT {
        safety_rating += 10;
    } else {
        push_message(&mut safety_message, "This password has too few distinct characters");
    }
    let ghost variety = views(safety_message@);
    assert(variety =~= if distinct_chars(password@) >= MIN_DISTINCT {
        Seq::<Seq<char>>::empty()
    } else {
        seq![distinct_message()]
    });

    if contains_class(&chars, CharClass::Uppercase) {
        safety_rating += 5;
    } else {
        push_message(&mut safety_message, "This password has no uppercase letters");
    }
    let ghost upper = views(safety_message@);
    assert(upper =~= variety + class_findings(password@, CharClass::Uppercase));

    if contains_class(&chars, CharClass::Lowercase) {
        safety_rating += 5;
    } else {
        push_message(&mut safety_message, "This password has no lowercase letters");
    }
    let ghost lower = views(safety_message@);
    assert(lower =~= upper + class_findings(password@, CharClass::Lowercase));

    if contains_class(&chars, CharClass::Number) {
        safety_rating += 5;
    } else {
        push_message(&mut safety_message, "This password has no numbers");
    }
    let ghost number = views(safety_message@);
    assert(number =~= lower + class_findings(password@, CharClass::Number));

    if contains_class(&chars, CharClass::Special) {
        safety_rating += 5;
    } else {
        push_message(&mut safety_message, "This password has no special characters");
    }
    assert(views(safety_message@) =~= number + class_findings(password@, CharClass::Special));

    (safety_rating, safety_message)
}

/// A passphrase that passes every check but the one for an uppercase letter
/// is rated exactly 5 below the maximum, with that one finding.
pub proof fn lemma_missing_uppercase_costs_five(password: Seq<char>)
    requires
        encode_utf8(password).len() >= MIN_LENGTH,
        distinct_chars(password) >= MIN_DISTINCT,
        !has_class(password, CharClass::Uppercase),
        has_class(password, CharClass::Lowercase),
        has_class(password, CharClass::Number),
        has_class(password, CharClass::Special),
    ensures
        safety_rating(password, false) == MAX_RATING - 5,
        safety_messages(password, false) == seq![class_message(CharClass::Uppercase)],
{
    assert(safety_messages(password, false) =~= seq![class_message(CharClass::Uppercase)]);
}

/// Every rating lies between 0 and `MAX_RATING`, and the maximum goes with no
/// finding at all.
pub proof fn lemma_rating_bounds(password: Seq<char>, listed: bool)
    ensures
        safety_rating(password, listed) <= MAX_RATING,
        safety_rating(password, listed) == MAX_RATING <==> safety_messages(password, listed).len()
            == 0,
{
}

/// The characters that a generated password draws from.
pub open spec fn character_pool() -> Seq<char> {
    "abcdefghijklmnopqrstuvwxyzABCDEFGHIJKLMNOPQRSTUVWXYZ0123456789!@#$%^&*()_+-=[]{}|;:,.<>?"@
}

/// The character at `position` of a generated password for which `pick` was
/// drawn: a hyphen at every fourth position but the first, else the picked
/// character of the pool.
pub open spec fn password_char_at(position: int, pick: int) -> char {
    if position % 4 == 0 && position != 0 {
        '-'
    } else {
        character_pool()[pick]
    }
}

/// Whether `c` may stand at `position` of a generated password: a hyphen
/// at every fourth position but the first, else a character of the pool.
pub open spec fn fits_position(c: char, position: int) -> bool {
    if position % 4 == 0 && position != 0 {
        c == '-'
    } else {
        character_pool().contains(c)
    }
}

/// Seeds a generator with `rand::SeedableRng::from_entropy`. Nothing is
/// promised of its state.
#[verifier::external_body]
fn entropy_rng() -> StdRng {
    StdRng::from_entropy()
}

/// Calls `rand::Rng::gen_range` on the range from 0 up to `bound`. Trusted:
/// the number drawn lies in that range.
#[verifier::external_body]
fn random_index(rng: &mut StdRng, bound: usize) -> (pick: usize)
    requires
        bound > 0,
    ensures
        pick < bound,
{
    rng.gen_range(0..bound)
}

/// Calls `String::push`. Trusted: the character is appended and nothing else
/// changes.
#[verifier::external_body]
fn push_char(text: &mut String, c: char)
    ensures
        final(text)@ == old(text)@.push(c),
{
    text.push(c);
}

/// The character for `position` of a generated password, given the index
/// `pick` drawn for it.
pub fn password_char(position: u32, pick: usize) -> (c: char)
    requires
        pick < POOL_LEN,
    ensures
        c == password_char_at(position as int, pick as int),
        fits_position(c, position as int),
{
    let character_pool =
        "abcdefghijklmnopqrstuvwxyzABCDEFGHIJKLMNOPQRSTUVWXYZ0123456789!@#$%^&*()_+-=[]{}|;:,.<>?";
    proof {
        reveal_strlit(
            "abcdefghijklmnopqrstuvwxyzABCDEFGHIJKLMNOPQRSTUVWXYZ0123456789!@#$%^&*()_+-=[]{}|;:,.<>?",
        );
    }
    if position % 4 == 0 && position != 0 {
        '-'
    } else {
        character_pool.get_char(pick)
    }
}

/// Generates a password of `length` characters: a hyphen at every fourth
/// position but the first, and a random character of the pool at each other.
pub fn generate_password(length: u32) -> (password: String)
    ensures
        password@.len() == length,
        forall|i: int| 0 <= i < length ==> fits_position(#[trigger] password@[i], i),
{
    let mut rng = entropy_rng();
    let mut password = String::new();
    let mut i: u32 = 0;
    while i < length
        invariant
            i <= length,
            password@.len() == i,
            forall|k: int| 0 <= k < i ==> fits_position(#[trigger] password@[k], k),
        decreases length - i,
    {
        let pick = random_index(&mut rng, POOL_LEN);
        let c = password_char(i, pick);
        push_char(&mut password, c);
        i += 1;
    }
    password
}

/// The position of the first line feed in `text`, or the length of `text`
/// where it holds none.
pub open spec fn first_break(text: Seq<char>) -> nat
    decreases text.len(),
{
    if text.len() == 0 || text[0] == '\n' {
        0
    } else {
        1 + first_break(text.drop_first())
    }
}

/// A line without the carriage return that it may end in.
pub open spec fn line_body(line: Seq<char>) -> Seq<char> {
    if line.len() > 0 && line.last() == '\r' {
        line.drop_last()
    } else {
        line
    }
}

/// The lines of `text`. A line ends in a line feed, or in a carriage return
/// and a line feed, neither of which belongs to it; the last line may go
/// without one.
pub open spec fn lines_of(text: Seq<char>) -> Seq<Seq<char>>
    decreases text.len(),
{
    if text.len() == 0 {
        seq![]
    } else if first_break(text) >= text.len() {
        seq![text]
    } else {
        seq![line_body(text.take(first_break(text) as int))] + lines_of(
            text.skip(first_break(text) as int + 1),
        )
    }
}

/// Where no line feed stands before the position `n`, and one stands at `n`
/// or the text ends there, `n` is the first break.
pub proof fn lemma_first_break(text: Seq<char>, n: int)
    requires
        0 <= n <= text.len(),
        forall|k: int| 0 <= k < n ==> text[k] != '\n',
        n == text.len() || text[n] == '\n',
    ensures
        first_break(text) == n,
    decreases n,
{
    if n > 0 {
        let rest = text.drop_first();
        assert forall|k: int| 0 <= k < n - 1 implies rest[k] != '\n' by {
            assert(rest[k] == text[k + 1]);
        }
        lemma_first_break(rest, n - 1);
    }
}

/// The characters of `chars` from `from` up to `to`, as a text.
fn text_between(chars: &Vec<char>, from: usize, to: usize) -> (text: String)
    requires
        from <= to <= chars@.len(),
    ensures
        text@ == chars@.subrange(from as int, to as int),
{
    let mut text = String::new();
    let mut i: usize = from;
    while i < to
        invariant
            from <= i <= to <= chars@.len(),
            text@ == chars@.subrange(from as int, i as int),
        decreases to - i,
    {
        push_char(&mut text, chars[i]);
        assert(chars@.subrange(from as int, i + 1) =~= chars@.subrange(from as int, i as int).push(
            chars@[i as int],
        ));
        i += 1;
    }
    assert(chars@.subrange(from as int, from as int) =~= Seq::<char>::empty());
    text
}

/// Splits the text of a list of common passwords into its lines, one
/// password each.
pub fn common_password_lines(text: &str) -> (lines: Vec<String>)
    ensures
        views(lines@) == lines_of(text@),
{
    let chars = chars_of(text);
    let mut lines: Vec<String> = Vec::new();
    let mut start: usize = 0;
    let mut i: usize = 0;
    proof {
        assert(chars@.skip(0) =~= chars@);
        assert(views(lines@) =~= Seq::<Seq<char>>::empty());
    }
    while i < chars.len()
        invariant
            start <= i <= chars@.len(),
            chars@ == text@,
            forall|k: int| start <= k < i ==> chars@[k] != '\n',
            lines_of(chars@) == views(lines@) + lines_of(chars@.skip(start as int)),
        decreases chars@.len() - i,
    {
        if chars[i] == '\n' {
            let end = if start < i && chars[i - 1] == '\r' {
                i - 1
            } else {
                i
            };
            let ghost before = views(lines@);
            let line = text_between(&chars, start, end);
            proof {
                let rest = chars@.skip(start as int);
                assert forall|k: int| 0 <= k < i - start implies rest[k] != '\n' by {
                    assert(rest[k] == chars@[start + k]);
                }
                lemma_first_break(rest, i - start);
                let raw = rest.take(i - start);
                assert(raw =~= chars@.subrange(start as int, i as int));
                assert(line@ =~= line_body(raw));
                assert(rest.skip(i - start + 1) =~= chars@.skip(i + 1));
            }
            lines.push(line);
            proof {
                assert(views(lines@) =~= before.push(line@));
                assert(views(lines@) + lines_of(chars@.skip(i + 1)) =~= before + (seq![line@]
                    + lines_of(chars@.skip(i + 1))));
            }
            start = i + 1;
        }
        i += 1;
    }
    if start < chars.len() {
        let ghost before = views(lines@);
        let line = text_between(&chars, start, chars.len());
        proof {
            let rest = chars@.skip(start as int);
            assert forall|k: int| 0 <= k < rest.len() implies rest[k] != '\n' by {
                assert(rest[k] == chars@[start + k]);
            }
            lemma_first_break(rest, rest.len() as int);
            assert(line@ =~= rest);
        }
        lines.push(line);
        proof {
            assert(views(lines@) =~= before.push(line@));
            assert(views(lines@) =~= before + seq![line@]);
        }
    } else {
        proof {
            assert(chars@.skip(start as int) =~= Seq::<char>::empty());
            assert(views(lines@) + Seq::<Seq<char>>::empty() =~= views(lines@));
        }
    }
    lines
}

} // verus!
