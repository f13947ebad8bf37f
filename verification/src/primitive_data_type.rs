use vstd::prelude::*;
use vstd::string::{StrSliceExecFns, StringExecFns};

use crate::schema_error::{SchemaError, SchemaErrorView};
use crate::text::{
    ascii_lower, ascii_lowercase_seq, ascii_upper, ascii_uppercase_seq, is_blank, lemma_ascii_case_chars,
    lemma_trim_blank_around, lemma_trim_case, str_equal, str_is_blank, to_ascii_uppercase, trim, trim_bounds,
};

verus! {

/// The fundamental data types supported by the database system.
#[derive(Clone, Copy, Debug, PartialEq, Eq, Structural)]
pub enum PrimitiveDataType {
    /// An unknown or unsupported type.
    Unknown,
    /// A 32-bit signed integer.
    Int,
    /// A 64-bit signed integer.
    BigInt,
    /// A variable-length string of at most the given number of bytes.
    Varchar(u16),
    /// A boolean value.
    Boolean,
    /// A fixed-point number with a precision (total number of significant digits) and a
    /// scale (number of digits to the right of the decimal point).
    Decimal(u8, u8),
    /// A date and time value.
    DateTime,
    /// A double-precision floating-point number.
    Float,
    /// A variable-length binary blob of at most the given number of bytes.
    Blob(u32),
}

/// The number of bytes that a value of a fixed size type takes in a serialized record.
pub open spec fn spec_fixed_size(t: PrimitiveDataType) -> Option<usize> {
    match t {
        PrimitiveDataType::Int => Some(4),
        PrimitiveDataType::BigInt => Some(8),
        PrimitiveDataType::Boolean => Some(1),
        PrimitiveDataType::Decimal(..) => Some(16),
        PrimitiveDataType::Float => Some(8),
        PrimitiveDataType::DateTime => Some(8),
        _ => None,
    }
}

/// Every type but `Blob`, `Varchar` and `Unknown` has a fixed size.
pub open spec fn spec_is_fixed_size(t: PrimitiveDataType) -> bool {
    !(t is Blob || t is Varchar || t is Unknown)
}

/// The outcome of `decimal`.
pub open spec fn spec_decimal(precision: u8, scale: u8) -> Result<PrimitiveDataType, SchemaErrorView> {
    if scale > precision {
        Err(SchemaErrorView::InvalidScale { precision, scale })
    } else {
        Ok(PrimitiveDataType::Decimal(precision, scale))
    }
}

/// A parse result with its error taken by its view.
pub open spec fn type_result_view(r: Result<PrimitiveDataType, SchemaError>) -> Result<PrimitiveDataType, SchemaErrorView> {
    match r {
        Ok(t) => Ok(t),
        Err(e) => Err(e@),
    }
}

// ---------------------------------------------------------------------------------------------
// The grammar of a data type name: NAME or NAME(ARG, ...), case-insensitive, with white space
// around names and arguments ignored.
// ---------------------------------------------------------------------------------------------

/// The index of the first `c` in `s`, or the length of `s` when there is none.
pub open spec fn first_index_of(s: Seq<char>, c: char) -> int
    decreases s.len(),
{
    if s.len() == 0 {
        0
    } else if s[0] == c {
        0
    } else {
        1 + first_index_of(s.drop_first(), c)
    }
}

/// The pieces of `s` between commas, as `str::split(',')` gives them.
pub open spec fn split_commas(s: Seq<char>) -> Seq<Seq<char>>
    decreases s.len(),
{
    if s.len() == 0 {
        seq![Seq::<char>::empty()]
    } else {
        let prev = split_commas(s.drop_last());
        if s.last() == ',' {
            prev.push(Seq::<char>::empty())
        } else {
            prev.update(prev.len() - 1, prev.last().push(s.last()))
        }
    }
}

/// The arguments between the parentheses: none when the text is blank, else the trimmed
/// pieces between commas.
pub open spec fn spec_args(s: Seq<char>) -> Seq<Seq<char>> {
    if is_blank(s) {
        Seq::empty()
    } else {
        split_commas(s).map_values(|p: Seq<char>| trim(p))
    }
}

pub open spec fn is_digit(c: char) -> bool {
    '0' <= c <= '9'
}

/// The value of a sequence of decimal digits.
pub open spec fn digits_value(d: Seq<char>) -> int
    decreases d.len(),
{
    if d.len() == 0 {
        0
    } else {
        digits_value(d.drop_last()) * 10 + (d.last() as int - '0' as int)
    }
}

/// The value that an unsigned integer `parse` gives for `s` when it does not exceed `max`: an
/// optional `+` followed by at least one decimal digit.
pub open spec fn spec_parse_uint(s: Seq<char>, max: int) -> Option<int> {
    let d = uint_digits(s);
    if d.len() > 0 && (forall|i: int| 0 <= i < d.len() ==> is_digit(#[trigger] d[i])) && digits_value(d)
        <= max {
        Some(digits_value(d))
    } else {
        None
    }
}

pub open spec fn mismatch(name: Seq<char>, expected: Seq<char>, found: nat) -> Result<PrimitiveDataType, SchemaErrorView> {
    Err(SchemaErrorView::ArgumentMismatch { data_type_name: name, expected, found })
}

/// The type named `name` with the arguments `args` (both upper case).
pub open spec fn spec_parse_named(name: Seq<char>, args: Seq<Seq<char>>) -> Result<PrimitiveDataType, SchemaErrorView> {
    if name == "INT"@ || name == "INTEGER"@ {
        if args.len() != 0 {
            mismatch("INT"@, "0"@, args.len())
        } else {
            Ok(PrimitiveDataType::Int)
        }
    } else if name == "BIGINT"@ {
        if args.len() != 0 {
            mismatch("BIGINT"@, "0"@, args.len())
        } else {
            Ok(PrimitiveDataType::BigInt)
        }
    } else if name == "VARCHAR"@ {
        if args.len() != 1 {
            mismatch("VARCHAR"@, "1"@, args.len())
        } else {
            match spec_parse_uint(args[0], u16::MAX as int) {
                Some(v) => Ok(PrimitiveDataType::Varchar(v as u16)),
                None => Err(SchemaErrorView::InvalidNumber(args[0])),
            }
        }
    } else if name == "BOOLEAN"@ || name == "BOOL"@ {
        if args.len() != 0 {
            mismatch("BOOLEAN"@, "0"@, args.len())
        } else {
            Ok(PrimitiveDataType::Boolean)
        }
    } else if name == "DECIMAL"@ {
        if args.len() == 0 {
            Ok(PrimitiveDataType::Decimal(18, 0))
        } else if args.len() == 2 {
            match spec_parse_uint(args[0], u8::MAX as int) {
                None => Err(SchemaErrorView::InvalidNumber(args[0])),
                Some(p) => match spec_parse_uint(args[1], u8::MAX as int) {
                    None => Err(SchemaErrorView::InvalidNumber(args[1])),
                    Some(s) => spec_decimal(p as u8, s as u8),
                },
            }
        } else {
            mismatch("DECIMAL"@, "0 or 2"@, args.len())
        }
    } else if name == "DATETIME"@ {
        if args.len() != 0 {
            mismatch("DATETIME"@, "0"@, args.len())
        } else {
            Ok(PrimitiveDataType::DateTime)
        }
    } else if name == "FLOAT"@ || name == "DOUBLE"@ {
        if args.len() != 0 {
            mismatch("FLOAT"@, "0"@, args.len())
        } else {
            Ok(PrimitiveDataType::Float)
        }
    } else if name == "BLOB"@ {
        if args.len() != 1 {
            mismatch("BLOB"@, "1"@, args.len())
        } else {
            match spec_parse_uint(args[0], u32::MAX as int) {
                Some(v) => Ok(PrimitiveDataType::Blob(v as u32)),
                None => Err(SchemaErrorView::InvalidNumber(args[0])),
            }
        }
    } else {
        Err(SchemaErrorView::UnknownType(name))
    }
}

/// The data type that a type name denotes, or the error that rejects it.
pub open spec fn spec_parse_data_type(input: Seq<char>) -> Result<PrimitiveDataType, SchemaErrorView> {
    let t = trim(input);
    if t.len() == 0 {
        Err(SchemaErrorView::EmptyInput)
    } else {
        let n = ascii_uppercase_seq(t);
        let p = first_index_of(n, '(');
        if p < n.len() {
            if n.last() != ')' {
                Err(SchemaErrorView::InvalidFormat("Missing closing parenthesis in '"@ + t + "'"@))
            } else {
                spec_parse_named(trim(n.subrange(0, p)), spec_args(n.subrange(p + 1, n.len() - 1)))
            }
        } else {
            spec_parse_named(n, Seq::empty())
        }
    }
}

/// Type names ignore blank text around them, and the case of their letters: `from_str` gives
/// the same type, or the same error, for `s`, for `s` with white space around it, and for
/// `s` in ASCII upper or lower case (save the message of a missing parenthesis, which quotes
/// the text as written).
pub proof fn lemma_parse_ignores_case_and_blanks(s: Seq<char>, a: Seq<char>, b: Seq<char>)
    requires
        is_blank(a),
        is_blank(b),
    ensures
        spec_parse_data_type(a + s + b) == spec_parse_data_type(s),
        !(spec_parse_data_type(s) matches Err(SchemaErrorView::InvalidFormat(_))) ==> spec_parse_data_type(
            ascii_uppercase_seq(s),
        ) == spec_parse_data_type(s) && spec_parse_data_type(ascii_lowercase_seq(s)) == spec_parse_data_type(s),
{
    lemma_trim_blank_around(a, s, b);
    lemma_trim_case(s);
    let t = trim(s);
    assert(ascii_uppercase_seq(ascii_uppercase_seq(t)) =~= ascii_uppercase_seq(t)) by {
        assert forall|i: int| 0 <= i < t.len() implies ascii_upper(ascii_upper(#[trigger] t[i])) == ascii_upper(t[i]) by {
            lemma_ascii_case_chars(t[i]);
        }
    }
    assert(ascii_uppercase_seq(ascii_lowercase_seq(t)) =~= ascii_uppercase_seq(t)) by {
        assert forall|i: int| 0 <= i < t.len() implies ascii_upper(ascii_lower(#[trigger] t[i])) == ascii_upper(t[i]) by {
            lemma_ascii_case_chars(t[i]);
        }
    }
}

/// The names of the types without arguments, in any case and with blanks around them, parse
/// to their types: `INT` and `INTEGER` to `Int`, `BIGINT` to `BigInt`, `BOOLEAN` and `BOOL` to
/// `Boolean`, `DATETIME` to `DateTime`, `FLOAT` and `DOUBLE` to `Float`, and `DECIMAL` alone to
/// `Decimal(18, 0)`.
pub proof fn lemma_plain_type_names_parse(s: Seq<char>)
    ensures
        ascii_uppercase_seq(trim(s)) == "INT"@ ==> spec_parse_data_type(s) == Ok::<PrimitiveDataType, SchemaErrorView>(
            PrimitiveDataType::Int,
        ),
        ascii_uppercase_seq(trim(s)) == "INTEGER"@ ==> spec_parse_data_type(s) == Ok::<
            PrimitiveDataType,
            SchemaErrorView,
        >(PrimitiveDataType::Int),
        ascii_uppercase_seq(trim(s)) == "BIGINT"@ ==> spec_parse_data_type(s) == Ok::<
            PrimitiveDataType,
            SchemaErrorView,
        >(PrimitiveDataType::BigInt),
        ascii_uppercase_seq(trim(s)) == "BOOLEAN"@ ==> spec_parse_data_type(s) == Ok::<
            PrimitiveDataType,
            SchemaErrorView,
        >(PrimitiveDataType::Boolean),
        ascii_uppercase_seq(trim(s)) == "BOOL"@ ==> spec_parse_data_type(s) == Ok::<
            PrimitiveDataType,
            SchemaErrorView,
        >(PrimitiveDataType::Boolean),
        ascii_uppercase_seq(trim(s)) == "DATETIME"@ ==> spec_parse_data_type(s) == Ok::<
            PrimitiveDataType,
            SchemaErrorView,
        >(PrimitiveDataType::DateTime),
        ascii_uppercase_seq(trim(s)) == "FLOAT"@ ==> spec_parse_data_type(s) == Ok::<
            PrimitiveDataType,
            SchemaErrorView,
        >(PrimitiveDataType::Float),
        ascii_uppercase_seq(trim(s)) == "DOUBLE"@ ==> spec_parse_data_type(s) == Ok::<
            PrimitiveDataType,
            SchemaErrorView,
        >(PrimitiveDataType::Float),
        ascii_uppercase_seq(trim(s)) == "DECIMAL"@ ==> spec_parse_data_type(s) == Ok::<
            PrimitiveDataType,
            SchemaErrorView,
        >(PrimitiveDataType::Decimal(18, 0)),
{
    reveal_strlit("INT");
    reveal_strlit("INTEGER");
    reveal_strlit("BIGINT");
    reveal_strlit("VARCHAR");
    reveal_strlit("BOOLEAN");
    reveal_strlit("BOOL");
    reveal_strlit("DECIMAL");
    reveal_strlit("DATETIME");
    reveal_strlit("FLOAT");
    reveal_strlit("DOUBLE");
    reveal_strlit("BLOB");
    let n = ascii_uppercase_seq(trim(s));
    if n.len() > 0 && forall|i: int| 0 <= i < n.len() ==> 'A' <= #[trigger] n[i] <= 'Z' {
        lemma_first_index_of(n, '(', n.len() as int);
    }
}

// ---------------------------------------------------------------------------------------------
// Lemmas.
// ---------------------------------------------------------------------------------------------

pub proof fn lemma_first_index_of(s: Seq<char>, c: char, k: int)
    requires
        0 <= k <= s.len(),
        forall|i: int| 0 <= i < k ==> #[trigger] s[i] != c,
        k == s.len() || s[k] == c,
    ensures
        first_index_of(s, c) == k,
    decreases k,
{
    if k > 0 {
        let t = s.drop_first();
        assert(s[0] != c);
        assert forall|i: int| 0 <= i < k - 1 implies #[trigger] t[i] != c by {
            assert(t[i] == s[i + 1]);
        }
        if k < s.len() {
            assert(t[k - 1] == s[k]);
        }
        lemma_first_index_of(t, c, k - 1);
    }
}

pub proof fn lemma_digits_value_nonneg(d: Seq<char>)
    requires
        forall|i: int| 0 <= i < d.len() ==> is_digit(#[trigger] d[i]),
    ensures
        digits_value(d) >= 0,
    decreases d.len(),
{
    if d.len() > 0 {
        let t = d.drop_last();
        assert forall|i: int| 0 <= i < t.len() implies is_digit(#[trigger] t[i]) by {
            assert(t[i] == d[i]);
        }
        lemma_digits_value_nonneg(t);
        assert(is_digit(d[d.len() - 1]));
    }
}

pub proof fn lemma_digits_value_prefix(d: Seq<char>, k: int)
    requires
        0 <= k <= d.len(),
        forall|i: int| 0 <= i < d.len() ==> is_digit(#[trigger] d[i]),
    ensures
        digits_value(d.take(k)) <= digits_value(d),
    decreases d.len() - k,
{
    if k < d.len() {
        lemma_digits_value_prefix(d, k + 1);
        assert(d.take(k + 1).drop_last() =~= d.take(k));
        assert(d.take(k + 1).last() == d[k]);
        assert(is_digit(d[k]));
        let t = d.take(k);
        assert forall|i: int| 0 <= i < t.len() implies is_digit(#[trigger] t[i]) by {
            assert(t[i] == d[i]);
        }
        lemma_digits_value_nonneg(t);
    } else {
        assert(d.take(k) =~= d);
    }
}

/// The digits that `spec_parse_uint` reads: `s` without a leading `+`.
pub open spec fn uint_digits(s: Seq<char>) -> Seq<char> {
    if s.len() > 0 && s[0] == '+' {
        s.drop_first()
    } else {
        s
    }
}

proof fn lemma_parse_uint_non_digit(s: Seq<char>, max: int, k: int)
    requires
        0 <= k < uint_digits(s).len(),
        !is_digit(uint_digits(s)[k]),
    ensures
        spec_parse_uint(s, max) is None,
{
    let d = uint_digits(s);
    assert(!(forall|j: int| 0 <= j < d.len() ==> is_digit(#[trigger] d[j])));
}

proof fn lemma_parse_uint_too_big(s: Seq<char>, max: int, k: int)
    requires
        0 <= k <= uint_digits(s).len(),
        digits_value(uint_digits(s).take(k)) > max,
    ensures
        spec_parse_uint(s, max) is None,
{
    let d = uint_digits(s);
    if forall|j: int| 0 <= j < d.len() ==> is_digit(#[trigger] d[j]) {
        lemma_digits_value_prefix(d, k);
    }
}

// ---------------------------------------------------------------------------------------------
// Executable parts.
// ---------------------------------------------------------------------------------------------

/// The index of the first `c` in `s`, or its length.
fn find_char(s: &str, c: char) -> (r: usize)
    ensures
        r as int == first_index_of(s@, c),
        r <= s@.len(),
        r < s@.len() ==> s@[r as int] == c,
{
    let n = s.unicode_len();
    let mut i: usize = 0;
    while i < n && s.get_char(i) != c
        invariant
            n as int == s@.len(),
            0 <= i <= n,
            forall|j: int| 0 <= j < i ==> #[trigger] s@[j] != c,
        decreases n - i,
    {
        i = i + 1;
    }
    proof {
        lemma_first_index_of(s@, c, i as int);
    }
    i
}

/// An unsigned integer `parse` bounded by `max`.
fn parse_uint(s: &str, max: u64) -> (r: Option<u64>)
    requires
        max <= u32::MAX,
    ensures
        r is None <==> spec_parse_uint(s@, max as int) is None,
        r matches Some(v) ==> v <= max && spec_parse_uint(s@, max as int) == Some(v as int),
{
    let n = s.unicode_len();
    let mut start: usize = 0;
    if n > 0 && s.get_char(0) == '+' {
        start = 1;
    }
    let ghost d = uint_digits(s@);
    assert(d =~= s@.subrange(start as int, n as int));
    if start == n {
        return None;
    }
    let mut value: u64 = 0;
    let mut i: usize = start;
    while i < n
        invariant
            n as int == s@.len(),
            max <= u32::MAX,
            d == s@.subrange(start as int, n as int),
            start < n,
            start <= i <= n,
            forall|j: int| 0 <= j < i - start ==> is_digit(#[trigger] d[j]),
            value as int == digits_value(d.take(i - start)),
            value <= max,
            d == uint_digits(s@),
        decreases n - i,
    {
        let c = s.get_char(i);
        assert(d[i - start] == c);
        if c < '0' || c > '9' {
            assert(!is_digit(d[i - start]));
            proof {
                lemma_parse_uint_non_digit(s@, max as int, i - start);
            }
            return None;
        }
        let digit = (c as u32 - '0' as u32) as u64;
        proof {
            assert(d.take(i - start + 1).drop_last() =~= d.take(i - start));
            assert(d.take(i - start + 1).last() == c);
        }
        let next = value * 10 + digit;
        if next > max {
            proof {
                let k = i - start + 1;
                assert(digits_value(d.take(k)) > max);
                lemma_parse_uint_too_big(s@, max as int, k);
            }
            return None;
        }
        value = next;
        i = i + 1;
    }
    assert(d.take(n - start) =~= d);
    Some(value)
}

/// The trimmed pieces between commas of `s`, or none when `s` is blank.
fn split_args<'a>(s: &'a str) -> (r: Vec<&'a str>)
    ensures
        r@.len() == spec_args(s@).len(),
        forall|i: int| 0 <= i < r@.len() ==> (#[trigger] r@[i])@ == spec_args(s@)[i],
{
    if str_is_blank(s) {
        return Vec::new();
    }
    let n = s.unicode_len();
    let mut pieces: Vec<&'a str> = Vec::new();
    let mut start: usize = 0;
    let mut i: usize = 0;
    proof {
        assert(s@.take(0) =~= Seq::<char>::empty());
        assert(Seq::new(pieces@.len(), |k: int| pieces@[k]@).push(s@.subrange(0, 0)) =~= seq![Seq::<char>::empty()]);
    }
    while i < n
        invariant
            n as int == s@.len(),
            0 <= start <= i <= n,
            split_commas(s@.take(i as int)) =~= Seq::new(pieces@.len(), |k: int| pieces@[k]@).push(
                s@.subrange(start as int, i as int),
            ),
        decreases n - i,
    {
        let ghost prev = Seq::new(pieces@.len(), |k: int| pieces@[k]@);
        proof {
            assert(s@.take(i + 1).drop_last() =~= s@.take(i as int));
            assert(s@.take(i + 1).last() == s@[i as int]);
        }
        if s.get_char(i) == ',' {
            let ghost old_start = start;
            pieces.push(s.substring_char(start, i));
            start = i + 1;
            proof {
                let now = Seq::new(pieces@.len(), |k: int| pieces@[k]@);
                assert(now =~= prev.push(s@.subrange(old_start as int, i as int)));
                assert(s@.subrange(start as int, i + 1) =~= Seq::<char>::empty());
            }
        } else {
            proof {
                assert(s@.subrange(start as int, i + 1) =~= s@.subrange(start as int, i as int).push(s@[i as int]));
            }
        }
        i = i + 1;
    }
    pieces.push(s.substring_char(start, n));
    proof {
        assert(s@.take(n as int) =~= s@);
        let all = Seq::new(pieces@.len(), |k: int| pieces@[k]@);
        assert(all =~= split_commas(s@));
    }
    let mut out: Vec<&'a str> = Vec::new();
    let mut k: usize = 0;
    while k < pieces.len()
        invariant
            0 <= k <= pieces@.len(),
            pieces@.len() == split_commas(s@).len(),
            forall|j: int| 0 <= j < pieces@.len() ==> (#[trigger] pieces@[j])@ == split_commas(s@)[j],
            out@.len() == k,
            forall|j: int| 0 <= j < k ==> (#[trigger] out@[j])@ == trim(split_commas(s@)[j]),
        decreases pieces@.len() - k,
    {
        let piece = pieces[k];
        let (a, b) = trim_bounds(piece);
        out.push(piece.substring_char(a, b));
        k = k + 1;
    }
    out
}

impl PrimitiveDataType {
    /// Constructs a decimal type; the scale cannot exceed the precision.
    pub fn decimal(precision: u8, scale: u8) -> (r: Result<Self, SchemaError>)
        ensures
            type_result_view(r) == spec_decimal(precision, scale),
    {
        if scale > precision {
            return Err(SchemaError::InvalidScale { precision, scale });
        }
        Ok(PrimitiveDataType::Decimal(precision, scale))
    }

    /// Whether values of this type take a fixed number of bytes.
    pub fn is_fixed_size(&self) -> (r: bool)
        ensures
            r == spec_is_fixed_size(*self),
    {
        match self {
            PrimitiveDataType::Blob(_) | PrimitiveDataType::Varchar(_) | PrimitiveDataType::Unknown => false,
            _ => true,
        }
    }

    /// The number of bytes of a value of a fixed size type.
    pub fn get_fixed_size(&self) -> (r: Option<usize>)
        ensures
            r == spec_fixed_size(*self),
    {
        match self {
            PrimitiveDataType::Int => Some(4),
            PrimitiveDataType::BigInt => Some(8),
            PrimitiveDataType::Boolean => Some(1),
            PrimitiveDataType::Decimal(..) => Some(16),
            PrimitiveDataType::Float => Some(8),
            PrimitiveDataType::DateTime => Some(8),
            _ => None,
        }
    }

    /// Parses a data type name such as `INT`, `varchar( 255 )` or `DECIMAL(10, 2)`.
    pub fn parse(input: &str) -> (r: Result<Self, SchemaError>)
        ensures
            type_result_view(r) == spec_parse_data_type(input@),
    {
        let (lo, hi) = trim_bounds(input);
        if lo == hi {
            return Err(SchemaError::EmptyInput);
        }
        let trimmed = input.substring_char(lo, hi);
        let normalized = to_ascii_uppercase(trimmed);
        let n = normalized.as_str();
        let len = n.unicode_len();
        let open_idx = find_char(n, '(');
        if open_idx < len {
            if n.get_char(len - 1) != ')' {
                let mut message = String::from_str("Missing closing parenthesis in '");
                message.append(trimmed);
                message.append("'");
                return Err(SchemaError::InvalidFormat(message));
            }
            assert(n@[open_idx as int] == '(');
            let name_full = n.substring_char(0, open_idx);
            let (a, b) = trim_bounds(name_full);
            let name = name_full.substring_char(a, b);
            let args_str = n.substring_char(open_idx + 1, len - 1);
            let args = split_args(args_str);
            assert(Seq::new(args@.len(), |i: int| args@[i]@) =~= spec_args(args_str@));
            Self::parse_named(name, &args)
        } else {
            let args: Vec<&str> = Vec::new();
            assert(Seq::new(args@.len(), |i: int| args@[i]@) =~= Seq::<Seq<char>>::empty());
            Self::parse_named(n, &args)
        }
    }

    /// The type named `name` with the given arguments.
    fn parse_named(name: &str, args: &Vec<&str>) -> (r: Result<Self, SchemaError>)
        ensures
            type_result_view(r) == spec_parse_named(name@, Seq::new(args@.len(), |i: int| args@[i]@)),
    {
        let ghost a = Seq::new(args@.len(), |i: int| args@[i]@);
        let found = args.len();
        let r = if str_equal(name, "INT") || str_equal(name, "INTEGER") {
            if found != 0 {
                Err(SchemaError::ArgumentMismatch {
                    data_type_name: String::from_str("INT"),
                    expected: String::from_str("0"),
                    found,
                })
            } else {
                Ok(PrimitiveDataType::Int)
            }
        } else if str_equal(name, "BIGINT") {
            if found != 0 {
                Err(SchemaError::ArgumentMismatch {
                    data_type_name: String::from_str("BIGINT"),
                    expected: String::from_str("0"),
                    found,
                })
            } else {
                Ok(PrimitiveDataType::BigInt)
            }
        } else if str_equal(name, "VARCHAR") {
            if found != 1 {
                Err(SchemaError::ArgumentMismatch {
                    data_type_name: String::from_str("VARCHAR"),
                    expected: String::from_str("1"),
                    found,
                })
            } else {
                match parse_uint(args[0], 0xFFFF) {
                    Some(v) => Ok(PrimitiveDataType::Varchar(v as u16)),
                    None => Err(SchemaError::InvalidNumber(String::from_str(args[0]))),
                }
            }
        } else if str_equal(name, "BOOLEAN") || str_equal(name, "BOOL") {
            if found != 0 {
                Err(SchemaError::ArgumentMismatch {
                    data_type_name: String::from_str("BOOLEAN"),
                    expected: String::from_str("0"),
                    found,
                })
            } else {
                Ok(PrimitiveDataType::Boolean)
            }
        } else if str_equal(name, "DECIMAL") {
            if found == 0 {
                Ok(PrimitiveDataType::Decimal(18, 0))
            } else if found == 2 {
                match parse_uint(args[0], 0xFF) {
                    None => Err(SchemaError::InvalidNumber(String::from_str(args[0]))),
                    Some(p) => match parse_uint(args[1], 0xFF) {
                        None => Err(SchemaError::InvalidNumber(String::from_str(args[1]))),
                        Some(s) => PrimitiveDataType::decimal(p as u8, s as u8),
                    },
                }
            } else {
                Err(SchemaError::ArgumentMismatch {
                    data_type_name: String::from_str("DECIMAL"),
                    expected: String::from_str("0 or 2"),
                    found,
                })
            }
        } else if str_equal(name, "DATETIME") {
            if found != 0 {
                Err(SchemaError::ArgumentMismatch {
                    data_type_name: String::from_str("DATETIME"),
                    expected: String::from_str("0"),
                    found,
                })
            } else {
                Ok(PrimitiveDataType::DateTime)
            }
        } else if str_equal(name, "FLOAT") || str_equal(name, "DOUBLE") {
            if found != 0 {
                Err(SchemaError::ArgumentMismatch {
                    data_type_name: String::from_str("FLOAT"),
                    expected: String::from_str("0"),
                    found,
                })
            } else {
                Ok(PrimitiveDataType::Float)
            }
        } else if str_equal(name, "BLOB") {
            if found != 1 {
                Err(SchemaError::ArgumentMismatch {
                    data_type_name: String::from_str("BLOB"),
                    expected: String::from_str("1"),
                    found,
                })
            } else {
                match parse_uint(args[0], 0xFFFF_FFFF) {
                    Some(v) => Ok(PrimitiveDataType::Blob(v as u32)),
                    None => Err(SchemaError::InvalidNumber(String::from_str(args[0]))),
                }
            }
        } else {
            Err(SchemaError::UnknownType(String::from_str(name)))
        };
        r
    }
}

impl std::str::FromStr for PrimitiveDataType {
    type Err = SchemaError;

    fn from_str(input: &str) -> (r: Result<Self, Self::Err>)
        ensures
            type_result_view(r) == spec_parse_data_type(input@),
    {
        PrimitiveDataType::parse(input)
    }
}

} // verus!
