//! The boundary with request handling: what a request asks the store to do,
//! and which status its outcome maps to. A malformed request is refused here
//! and never reaches a worker.

use vstd::prelude::*;
use vstd::string::StrSliceExecFns;
use crate::error::StorageError;
use crate::models::{ConspiracyTag, NewTag};
use crate::operation::{Operation, TypedValue};

verus! {

/// Status of a response that carries a value.
pub const STATUS_OK: u16 = 200;

/// Status of a response to a lookup that matched nothing.
pub const STATUS_NOT_FOUND: u16 = 404;

/// Status of a response to anything else that failed.
pub const STATUS_INTERNAL_ERROR: u16 = 500;

/// Whether `c` is one of `0` to `9`.
pub open spec fn is_digit(c: char) -> bool {
    '0' <= c <= '9'
}

/// Every character of `s` is a digit.
pub open spec fn all_digits(s: Seq<char>) -> bool {
    forall|i: int| 0 <= i < s.len() ==> is_digit(#[trigger] s[i])
}

/// The number that a run of digits writes in base ten.
pub open spec fn digits_value(s: Seq<char>) -> int
    decreases s.len(),
{
    if s.len() == 0 {
        0
    } else {
        digits_value(s.drop_last()) * 10 + (s.last() as int - '0' as int)
    }
}

/// Whether the text of a page parameter starts with a sign.
pub open spec fn has_sign(text: Seq<char>) -> bool {
    text.len() > 0 && (text[0] == '+' || text[0] == '-')
}

/// The digits of a page parameter: the text without its sign.
pub open spec fn digits_of(text: Seq<char>) -> Seq<char> {
    if has_sign(text) {
        text.drop_first()
    } else {
        text
    }
}

/// The page number that the text of a page parameter stands for: one or more
/// digits, optionally after a sign, that write a number from 0 to
/// `i32::MAX`. After a `-` only zero is such a number. Anything else stands
/// for no page number.
pub open spec fn page_number_of(text: Seq<char>) -> Option<int> {
    let digits = digits_of(text);
    if digits.len() > 0 && all_digits(digits) && digits_value(digits) <= i32::MAX && (text[0]
        != '-' || digits_value(digits) == 0) {
        Some(digits_value(digits))
    } else {
        None
    }
}

/// The page that a request asks for: the first one where it names none.
pub open spec fn requested_page_of(page: Option<&str>) -> Option<int> {
    match page {
        None => Some(0),
        Some(text) => page_number_of(text@),
    }
}

/// A run of digits writes no smaller a number than any of its beginnings.
pub proof fn lemma_digits_grow(s: Seq<char>, k: int)
    requires
        all_digits(s),
        0 <= k <= s.len(),
    ensures
        0 <= digits_value(s.take(k)) <= digits_value(s),
    decreases s.len() - k,
{
    if k == s.len() {
        assert(s.take(k) =~= s);
        lemma_digits_nonnegative(s);
    } else {
        lemma_digits_grow(s, k + 1);
        assert(s.take(k + 1).drop_last() =~= s.take(k));
        assert(is_digit(s[k]));
        assert(s.take(k + 1).last() == s[k]);
        lemma_digits_nonnegative(s.take(k));
    }
}

/// A run of digits writes a number that is not negative.
pub proof fn lemma_digits_nonnegative(s: Seq<char>)
    requires
        all_digits(s),
    ensures
        0 <= digits_value(s),
    decreases s.len(),
{
    if s.len() > 0 {
        assert(is_digit(s.last()));
        assert forall|i: int| 0 <= i < s.drop_last().len() implies is_digit(
            #[trigger] s.drop_last()[i],
        ) by {
            assert(s.drop_last()[i] == s[i]);
        }
        lemma_digits_nonnegative(s.drop_last());
    }
}

/// Reads the text of a page parameter.
pub fn parse_page_number(text: &str) -> (result: Result<i64, StorageError>)
    ensures
        page_number_of(text@) is Some ==> result == Ok::<i64, StorageError>(
            page_number_of(text@)->Some_0 as i64,
        ),
        page_number_of(text@) is None ==> result == Err::<i64, StorageError>(
            StorageError::Validation,
        ),
        result is Ok ==> 0 <= result->Ok_0 <= i32::MAX,
{
    let len = text.unicode_len();
    let first: char = if len > 0 {
        text.get_char(0)
    } else {
        '0'
    };
    let minus: bool = len > 0 && first == '-';
    let start: usize = if len > 0 && (first == '+' || first == '-') {
        1
    } else {
        0
    };
    let ghost digits = digits_of(text@);
    assert(digits =~= text@.subrange(start as int, len as int));
    if start == len {
        return Err(StorageError::Validation);
    }
    let mut value: i64 = 0;
    let mut i: usize = start;
    while i < len
        invariant
            start <= i <= len,
            len == text@.len(),
            digits == text@.subrange(start as int, len as int),
            digits == digits_of(text@),
            minus == (text@.len() > 0 && text@[0] == '-'),
            all_digits(digits.take(i - start)),
            value == digits_value(digits.take(i - start)),
            0 <= value <= i32::MAX,
        decreases len - i,
    {
        let c = text.get_char(i);
        assert(digits[i - start] == c);
        if !(c >= '0' && c <= '9') {
            assert(!is_digit(digits[i - start]));
            return Err(StorageError::Validation);
        }
        let digit: i64 = (c as u32 - '0' as u32) as i64;
        let next: i64 = value * 10 + digit;
        proof {
            let longer = digits.take(i - start + 1);
            assert(longer.drop_last() =~= digits.take(i - start));
            assert(longer.last() == c);
            assert(next == digits_value(longer));
            assert forall|j: int| 0 <= j < longer.len() implies is_digit(#[trigger] longer[j]) by {
                if j < i - start {
                    assert(digits.take(i - start)[j] == longer[j]);
                }
            }
            if all_digits(digits) {
                lemma_digits_grow(digits, i - start + 1);
            }
        }
        if next > 2147483647 {
            return Err(StorageError::Validation);
        }
        value = next;
        i += 1;
    }
    assert(digits.take(i - start) =~= digits);
    if minus && value != 0 {
        return Err(StorageError::Validation);
    }
    Ok(value)
}

/// The page that a request asks for. A request without a page parameter asks
/// for the first page.
pub fn requested_page(page: Option<&str>) -> (result: Result<i64, StorageError>)
    ensures
        requested_page_of(page) is Some ==> result == Ok::<i64, StorageError>(
            requested_page_of(page)->Some_0 as i64,
        ),
        requested_page_of(page) is None ==> result == Err::<i64, StorageError>(
            StorageError::Validation,
        ),
        result is Ok ==> 0 <= result->Ok_0 <= i32::MAX,
{
    match page {
        None => Ok(0),
        Some(text) => parse_page_number(text),
    }
}

/// A request to store a new tag. A request without a name is refused.
pub fn add_tag(name: Option<String>) -> (result: Result<Operation, StorageError>)
    ensures
        name is Some ==> result == Ok::<Operation, StorageError>(
            Operation::InsertTag { new_tag: NewTag { name: name->Some_0 } },
        ),
        name is None ==> result == Err::<Operation, StorageError>(StorageError::Validation),
{
    match name {
        Some(name) => Ok(Operation::InsertTag { new_tag: NewTag { name } }),
        None => Err(StorageError::Validation),
    }
}

/// A request for one page of the tags.
pub fn get_tags(page: Option<&str>) -> (result: Result<Operation, StorageError>)
    ensures
        requested_page_of(page) is Some ==> result == Ok::<Operation, StorageError>(
            Operation::GetTags { page_number: requested_page_of(page)->Some_0 as i64 },
        ),
        requested_page_of(page) is None ==> result == Err::<Operation, StorageError>(
            StorageError::Validation,
        ),
{
    match requested_page(page) {
        Ok(page_number) => Ok(Operation::GetTags { page_number }),
        Err(e) => Err(e),
    }
}

/// A request for one page of the pages.
pub fn get_conspiracies(page: Option<&str>) -> (result: Result<Operation, StorageError>)
    ensures
        requested_page_of(page) is Some ==> result == Ok::<Operation, StorageError>(
            Operation::GetConspiracies { page_number: requested_page_of(page)->Some_0 as i64 },
        ),
        requested_page_of(page) is None ==> result == Err::<Operation, StorageError>(
            StorageError::Validation,
        ),
{
    match requested_page(page) {
        Ok(page_number) => Ok(Operation::GetConspiracies { page_number }),
        Err(e) => Err(e),
    }
}

/// A request for the page with the id `page_id`.
pub fn get_conspiracies_by_id(page_id: &str) -> (operation: Operation)
    ensures
        operation matches Operation::GetConspiracyById { page_id: id } && id@ == page_id@,
{
    Operation::GetConspiracyById { page_id: page_id.to_owned() }
}

/// A request for one page of the pages that carry the tag `tag_id`.
pub fn get_conspiracies_by_tag(tag_id: i32, page: Option<&str>) -> (result: Result<
    Operation,
    StorageError,
>)
    ensures
        requested_page_of(page) is Some ==> result == Ok::<Operation, StorageError>(
            Operation::GetConspiraciesByTag {
                tag_id,
                page_number: requested_page_of(page)->Some_0 as i64,
            },
        ),
        requested_page_of(page) is None ==> result == Err::<Operation, StorageError>(
            StorageError::Validation,
        ),
{
    match requested_page(page) {
        Ok(page_number) => Ok(Operation::GetConspiraciesByTag { tag_id, page_number }),
        Err(e) => Err(e),
    }
}

/// A request to link a page to a tag. A request that lacks the page id or the
/// tag id is refused.
pub fn tag_conspiracy(conspiracy_id: Option<String>, tag_id: Option<i32>) -> (result: Result<
    Operation,
    StorageError,
>)
    ensures
        conspiracy_id is Some && tag_id is Some ==> result == Ok::<Operation, StorageError>(
            Operation::TagConspiracy {
                tag: ConspiracyTag {
                    conspiracy_id: conspiracy_id->Some_0,
                    tag_id: tag_id->Some_0,
                },
            },
        ),
        conspiracy_id is None || tag_id is None ==> result == Err::<Operation, StorageError>(
            StorageError::Validation,
        ),
{
    match (conspiracy_id, tag_id) {
        (Some(conspiracy_id), Some(tag_id)) => Ok(
            Operation::TagConspiracy { tag: ConspiracyTag { conspiracy_id, tag_id } },
        ),
        _ => Err(StorageError::Validation),
    }
}

/// The status that an outcome maps to.
pub open spec fn status_of(result: Result<TypedValue, StorageError>) -> u16 {
    match result {
        Ok(_) => 200,
        Err(StorageError::NotFound) => 404,
        Err(_) => 500,
    }
}

/// The status of the response to an operation with the outcome `result`.
pub fn response_status(result: &Result<TypedValue, StorageError>) -> (status: u16)
    ensures
        status == status_of(*result),
{
    match result {
        Ok(_) => STATUS_OK,
        Err(StorageError::NotFound) => STATUS_NOT_FOUND,
        Err(_) => STATUS_INTERNAL_ERROR,
    }
}

} // verus!
