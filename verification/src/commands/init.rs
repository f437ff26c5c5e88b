//! itack init command, and what its repairs decide.

use crate::storage::markdown::{parse_issue, parsed};
use crate::text::{
    chars_of, first_occurrence, has_at, occurs_at, skip_newlines, skip_newlines_from, string_of,
    text_contains,
};
use vstd::prelude::*;

verus! {

/// What `init` does in a repository.
#[derive(Debug, Clone, Copy, PartialEq, Eq, Structural)]
pub enum InitPlan {
    /// Set the project up: its directory, its metadata, its ledger.
    Create,
    /// The project is set up already: migrate old records and repair the ledger.
    Repair,
}

/// Initialize a new itack project in the current git repository.
/// If already initialized, repairs/recreates the database.
pub fn run(initialized: bool) -> (plan: InitPlan)
    ensures
        plan == (if initialized {
            InitPlan::Repair
        } else {
            InitPlan::Create
        }),
{
    if initialized {
        InitPlan::Repair
    } else {
        InitPlan::Create
    }
}

/// The `.gitignore` that `init` puts into the project directory.
pub fn gitignore_content() -> (content: String)
    ensures
        content@ == "# itack ignores\n*.db\n*.db-wal\n*.db-shm\n"@,
{
    "# itack ignores\n*.db\n*.db-wal\n*.db-shm\n".to_owned()
}

/// Whether `c` is a decimal digit.
pub open spec fn is_digit(c: char) -> bool {
    '0' <= c <= '9'
}

/// The number that decimal digits spell.
pub open spec fn digits_value(digits: Seq<char>) -> nat
    decreases digits.len(),
{
    if digits.len() == 0 {
        0
    } else {
        digits_value(digits.drop_last()) * 10 + (digits.last() as u32 - '0' as u32) as nat
    }
}

/// What is left of a text once a plus sign at its start is dropped.
pub open spec fn unsigned_part(text: Seq<char>) -> Seq<char> {
    if text.len() > 0 && text[0] == '+' {
        text.subrange(1, text.len() as int)
    } else {
        text
    }
}

/// Every character is a decimal digit.
pub open spec fn all_digits(digits: Seq<char>) -> bool {
    forall|i: int| 0 <= i < digits.len() ==> is_digit(#[trigger] digits[i])
}

/// Whether a text reads as a `u32`: an optional plus sign, then one digit or more, which
/// spell a number that fits.
pub open spec fn reads_as_u32(text: Seq<char>) -> bool {
    unsigned_part(text).len() > 0 && all_digits(unsigned_part(text)) && digits_value(
        unsigned_part(text),
    ) <= u32::MAX
}

/// A record file has a legacy name when it is called `<number>.md`.
pub open spec fn is_legacy_name(name: Seq<char>) -> bool {
    name.len() > 3 && name.subrange(name.len() - 3, name.len() as int) == seq!['.', 'm', 'd']
        && reads_as_u32(name.subrange(0, name.len() - 3))
}

/// The value of digits grows with every digit.
proof fn lemma_digits_value_grows(digits: Seq<char>, upto: int)
    requires
        0 <= upto <= digits.len(),
        all_digits(digits),
    ensures
        digits_value(digits.take(upto)) <= digits_value(digits),
    decreases digits.len() - upto,
{
    if upto < digits.len() {
        let next = digits.take(upto + 1);
        assert(next.drop_last() =~= digits.take(upto));
        assert(digits_value(digits.take(upto)) <= digits_value(next)) by (nonlinear_arith)
            requires
                digits_value(next) == digits_value(digits.take(upto)) * 10 + (next.last() as u32
                    - '0' as u32) as nat,
        ;
        lemma_digits_value_grows(digits, upto + 1);
    } else {
        assert(digits.take(upto) =~= digits);
    }
}

/// Whether a record file has a legacy name, such as `12.md`, which calls for a rename to
/// the dated name.
#[verifier::loop_isolation(false)]
pub fn has_legacy_name(name: &str) -> (r: bool)
    ensures
        r == is_legacy_name(name@),
{
    let text = chars_of(name);
    let mut ending: Vec<char> = Vec::new();
    ending.push('.');
    ending.push('m');
    ending.push('d');
    assert(ending@ =~= seq!['.', 'm', 'd']);
    if text.len() <= 3 || !has_at(&text, text.len() - 3, &ending) {
        return false;
    }
    let end: usize = text.len() - 3;
    let start: usize = if text[0] == '+' {
        1
    } else {
        0
    };
    let ghost stem = text@.subrange(0, end as int);
    let ghost digits = unsigned_part(stem);
    assert(digits =~= text@.subrange(start as int, end as int));
    if start >= end {
        return false;
    }
    let mut value: u64 = 0;
    let mut i: usize = start;
    assert(digits.take(0) =~= Seq::<char>::empty());
    while i < end
        invariant
            start <= i <= end,
            end <= text.len(),
            digits == text@.subrange(start as int, end as int),
            forall|k: int| 0 <= k < i - start ==> is_digit(#[trigger] digits[k]),
            value == digits_value(digits.take(i - start)),
            value <= u32::MAX,
        decreases end - i,
    {
        let c = text[i];
        assert(c == digits[i - start]);
        if c < '0' || c > '9' {
            return false;
        }
        let ghost next = digits.take(i - start + 1);
        assert(next.drop_last() =~= digits.take(i - start));
        assert(next.last() == c);
        let d: u64 = (c as u32 - '0' as u32) as u64;
        value = value * 10 + d;
        if value > 0xFFFF_FFFF {
            proof {
                if reads_as_u32(stem) {
                    lemma_digits_value_grows(digits, i - start + 1);
                }
            }
            return false;
        }
        i += 1;
    }
    assert(digits.take(i - start) =~= digits);
    true
}

/// Whether a document frames a header and opens its body with a title heading.
pub fn has_title_heading(content: &str) -> (r: bool)
    ensures
        r == (parsed(content@) is Ok),
{
    parse_issue(content).is_ok()
}

/// A record needs its title moved when its header still holds a `title:` line or its body
/// does not open with a title heading.
pub open spec fn title_is_misplaced(content: Seq<char>) -> bool {
    first_occurrence(content, 0, "\ntitle:"@) is Some || !(parsed(content) is Ok)
}

/// Whether a record document needs its title moved from the header to a heading.
pub fn needs_title_migration(content: &str) -> (r: bool)
    ensures
        r == title_is_misplaced(content@),
{
    text_contains(content, "\ntitle:") || !has_title_heading(content)
}

/// The body of a record in the old format, where the header holds the title: what
/// follows the header, less the heading for that title and the line feeds after it, if
/// the body opens with that heading.
pub open spec fn old_body(body: Seq<char>, title: Seq<char>) -> Seq<char> {
    let heading = seq!['#', ' '] + title;
    if occurs_at(body, 0, heading) {
        body.subrange(skip_newlines(body, heading.len() as int), body.len() as int)
    } else {
        body
    }
}

/// The body of a record in the old format, without the heading that repeats its title.
pub fn old_format_body(body: &str, title: &str) -> (r: String)
    ensures
        r@ == old_body(body@, title@),
{
    let text = chars_of(body);
    let mut heading: Vec<char> = Vec::new();
    heading.push('#');
    heading.push(' ');
    let name = chars_of(title);
    let mut i: usize = 0;
    while i < name.len()
        invariant
            i <= name.len(),
            heading@ == seq!['#', ' '] + name@.take(i as int),
        decreases name.len() - i,
    {
        heading.push(name[i]);
        assert(name@.take(i + 1) =~= name@.take(i as int).push(name@[i as int]));
        assert(heading@ =~= seq!['#', ' '] + name@.take(i + 1));
        i += 1;
    }
    assert(name@.take(i as int) =~= name@);
    if has_at(&text, 0, &heading) {
        let from = skip_newlines_from(&text, heading.len());
        string_of(&text, from, text.len())
    } else {
        let whole = string_of(&text, 0, text.len());
        assert(text@.subrange(0, text.len() as int) =~= text@);
        whole
    }
}

} // verus!
