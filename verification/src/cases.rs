//! Case conversions of keys, done by the `Inflector` crate. A query key that
//! a mapping does not hold is tried again in each of these spellings.
use vstd::prelude::*;

verus! {

/// What `inflector::cases::camelcase::to_camel_case` gives for a text.
pub uninterp spec fn camel_case_of(text: Seq<char>) -> Seq<char>;

/// What `inflector::cases::classcase::to_class_case` gives for a text.
pub uninterp spec fn class_case_of(text: Seq<char>) -> Seq<char>;

/// What `inflector::cases::kebabcase::to_kebab_case` gives for a text.
pub uninterp spec fn kebab_case_of(text: Seq<char>) -> Seq<char>;

/// What `inflector::cases::pascalcase::to_pascal_case` gives for a text.
pub uninterp spec fn pascal_case_of(text: Seq<char>) -> Seq<char>;

/// What `inflector::cases::snakecase::to_snake_case` gives for a text.
pub uninterp spec fn snake_case_of(text: Seq<char>) -> Seq<char>;

/// What `inflector::cases::titlecase::to_title_case` gives for a text.
pub uninterp spec fn title_case_of(text: Seq<char>) -> Seq<char>;

/// What `inflector::cases::traincase::to_train_case` gives for a text.
pub uninterp spec fn train_case_of(text: Seq<char>) -> Seq<char>;

/// Calls `inflector::cases::camelcase::to_camel_case`; claims only that the
/// result depends on the text alone.
#[verifier::external_body]
pub(crate) fn to_camel_case(text: &str) -> (r: String)
    ensures
        r@ == camel_case_of(text@),
{
    inflector::cases::camelcase::to_camel_case(text)
}

/// Calls `inflector::cases::classcase::to_class_case`; claims only that the
/// result depends on the text alone.
#[verifier::external_body]
pub(crate) fn to_class_case(text: &str) -> (r: String)
    ensures
        r@ == class_case_of(text@),
{
    inflector::cases::classcase::to_class_case(text)
}

/// Calls `inflector::cases::kebabcase::to_kebab_case`; claims only that the
/// result depends on the text alone.
#[verifier::external_body]
pub(crate) fn to_kebab_case(text: &str) -> (r: String)
    ensures
        r@ == kebab_case_of(text@),
{
    inflector::cases::kebabcase::to_kebab_case(text)
}

/// Calls `inflector::cases::pascalcase::to_pascal_case`; claims only that
/// the result depends on the text alone.
#[verifier::external_body]
pub(crate) fn to_pascal_case(text: &str) -> (r: String)
    ensures
        r@ == pascal_case_of(text@),
{
    inflector::cases::pascalcase::to_pascal_case(text)
}

/// Calls `inflector::cases::snakecase::to_snake_case`; claims only that the
/// result depends on the text alone.
#[verifier::external_body]
pub(crate) fn to_snake_case(text: &str) -> (r: String)
    ensures
        r@ == snake_case_of(text@),
{
    inflector::cases::snakecase::to_snake_case(text)
}

/// Calls `inflector::cases::titlecase::to_title_case`; claims only that the
/// result depends on the text alone.
#[verifier::external_body]
pub(crate) fn to_title_case(text: &str) -> (r: String)
    ensures
        r@ == title_case_of(text@),
{
    inflector::cases::titlecase::to_title_case(text)
}

/// Calls `inflector::cases::traincase::to_train_case`; claims only that the
/// result depends on the text alone.
#[verifier::external_body]
pub(crate) fn to_train_case(text: &str) -> (r: String)
    ensures
        r@ == train_case_of(text@),
{
    inflector::cases::traincase::to_train_case(text)
}

/// The `n`-th spelling a key is tried in: camel, class, kebab, pascal,
/// snake, title and train case.
pub open spec fn converted_key(n: int, key: Seq<char>) -> Seq<char> {
    if n == 0 {
        camel_case_of(key)
    } else if n == 1 {
        class_case_of(key)
    } else if n == 2 {
        kebab_case_of(key)
    } else if n == 3 {
        pascal_case_of(key)
    } else if n == 4 {
        snake_case_of(key)
    } else if n == 5 {
        title_case_of(key)
    } else {
        train_case_of(key)
    }
}

/// The number of spellings tried.
pub open spec fn converter_count() -> int {
    7
}

/// Spells `key` in the `n`-th case.
pub fn convert_key(n: usize, key: &str) -> (r: String)
    requires
        n < 7,
    ensures
        r@ == converted_key(n as int, key@),
{
    if n == 0 {
        to_camel_case(key)
    } else if n == 1 {
        to_class_case(key)
    } else if n == 2 {
        to_kebab_case(key)
    } else if n == 3 {
        to_pascal_case(key)
    } else if n == 4 {
        to_snake_case(key)
    } else if n == 5 {
        to_title_case(key)
    } else {
        to_train_case(key)
    }
}

} // verus!
