use vstd::prelude::*;

use crate::primitive_data_type::{
    digits_value, first_index_of, is_digit, lemma_digits_value_nonneg, lemma_first_index_of, spec_args, spec_parse_data_type, split_commas,
    PrimitiveDataType,
};
use crate::schema_error::SchemaErrorView;
use crate::text::{ascii_uppercase_seq, is_white_space, lemma_trim_end_take, lemma_trim_start_skip, trim, trim_end, trim_start};

verus! {

/// Text without white space is its own trim.
proof fn lemma_trim_of_unspaced(t: Seq<char>)
    requires
        forall|i: int| 0 <= i < t.len() ==> !is_white_space(#[trigger] t[i]),
    ensures
        trim(t) == t,
{
    lemma_trim_start_skip(t, 0);
    assert(t.subrange(0, t.len() as int) =~= t);
    lemma_trim_end_take(trim_start(t), t.len() as int);
    assert(trim_start(t).subrange(0, t.len() as int) =~= t);
}

/// Text without a comma is a single piece.
proof fn lemma_split_without_comma(t: Seq<char>)
    requires
        forall|i: int| 0 <= i < t.len() ==> #[trigger] t[i] != ',',
    ensures
        split_commas(t) == seq![t],
    decreases t.len(),
{
    if t.len() > 0 {
        let u = t.drop_last();
        assert forall|i: int| 0 <= i < u.len() implies #[trigger] u[i] != ',' by {
            assert(u[i] == t[i]);
        }
        lemma_split_without_comma(u);
        assert(t.last() == t[t.len() - 1]);
        assert(t.last() != ',');
        assert(u.push(t.last()) =~= t);
        assert(seq![u].update(0, u.push(t.last())) =~= seq![t]);
    } else {
        assert(t =~= Seq::<char>::empty());
    }
}

/// A sequence of digits is the single argument it spells.
proof fn lemma_digits_are_one_argument(d: Seq<char>)
    requires
        d.len() > 0,
        forall|i: int| 0 <= i < d.len() ==> is_digit(#[trigger] d[i]),
    ensures
        spec_args(d) == seq![d],
{
    assert forall|i: int| 0 <= i < d.len() implies !is_white_space(#[trigger] d[i]) && d[i] != ',' by {
        assert(is_digit(d[i]));
    }
    assert(!is_white_space(d[0]));
    lemma_split_without_comma(d);
    lemma_trim_of_unspaced(d);
    assert(seq![d].map_values(|p: Seq<char>| trim(p)) =~= seq![d]);
}

/// `NAME(d)` splits into the name and the argument `d`.
proof fn lemma_name_with_argument(name: Seq<char>, d: Seq<char>)
    requires
        forall|i: int| 0 <= i < name.len() ==> 'A' <= #[trigger] name[i] <= 'Z',
        forall|i: int| 0 <= i < d.len() ==> is_digit(#[trigger] d[i]),
    ensures
        ({
            let n = name + "("@ + d + ")"@;
            &&& first_index_of(n, '(') == name.len()
            &&& n.len() > name.len()
            &&& n.last() == ')'
            &&& n.subrange(0, name.len() as int) == name
            &&& n.subrange(name.len() as int + 1, n.len() - 1) == d
        }),
{
    reveal_strlit("(");
    reveal_strlit(")");
    let n = name + "("@ + d + ")"@;
    assert forall|i: int| 0 <= i < name.len() implies #[trigger] n[i] != '(' by {
        assert(n[i] == name[i]);
    }
    assert(n[name.len() as int] == '(');
    lemma_first_index_of(n, '(', name.len() as int);
    assert(n.subrange(0, name.len() as int) =~= name);
    assert(n.subrange(name.len() as int + 1, n.len() - 1) =~= d);
}

/// A `VARCHAR` or a `BLOB` with one decimal argument, in any case and with blanks around it,
/// parses to that type with the argument's value as its length, while the value fits the
/// length's width (16 bits for `VARCHAR`, 32 for `BLOB`): `varchar(100)` is `Varchar(100)`.
pub proof fn lemma_sized_type_names_parse(s: Seq<char>, d: Seq<char>)
    requires
        d.len() > 0,
        forall|i: int| 0 <= i < d.len() ==> is_digit(#[trigger] d[i]),
    ensures
        ascii_uppercase_seq(trim(s)) == "VARCHAR("@ + d + ")"@ && digits_value(d) <= u16::MAX ==> spec_parse_data_type(
            s,
        ) == Ok::<PrimitiveDataType, SchemaErrorView>(PrimitiveDataType::Varchar(digits_value(d) as u16)),
        ascii_uppercase_seq(trim(s)) == "BLOB("@ + d + ")"@ && digits_value(d) <= u32::MAX ==> spec_parse_data_type(s)
            == Ok::<PrimitiveDataType, SchemaErrorView>(PrimitiveDataType::Blob(digits_value(d) as u32)),
{
    reveal_strlit("INT");
    reveal_strlit("INTEGER");
    reveal_strlit("BIGINT");
    reveal_strlit("VARCHAR");
    reveal_strlit("VARCHAR(");
    reveal_strlit("BOOLEAN");
    reveal_strlit("BOOL");
    reveal_strlit("DECIMAL");
    reveal_strlit("DATETIME");
    reveal_strlit("FLOAT");
    reveal_strlit("DOUBLE");
    reveal_strlit("BLOB");
    reveal_strlit("BLOB(");
    reveal_strlit("(");
    lemma_digits_are_one_argument(d);
    assert(d[0] != '+') by {
        assert(is_digit(d[0]));
    }
    let n = ascii_uppercase_seq(trim(s));
    if n == "VARCHAR("@ + d + ")"@ {
        assert("VARCHAR("@ =~= "VARCHAR"@ + "("@);
        assert(n =~= "VARCHAR"@ + "("@ + d + ")"@);
        lemma_name_with_argument("VARCHAR"@, d);
        lemma_trim_of_unspaced("VARCHAR"@);
    }
    if n == "BLOB("@ + d + ")"@ {
        assert("BLOB("@ =~= "BLOB"@ + "("@);
        assert(n =~= "BLOB"@ + "("@ + d + ")"@);
        lemma_name_with_argument("BLOB"@, d);
        lemma_trim_of_unspaced("BLOB"@);
    }
}

/// Splitting at commas gives at least one piece.
proof fn lemma_split_nonempty(t: Seq<char>)
    ensures
        split_commas(t).len() >= 1,
    decreases t.len(),
{
    if t.len() > 0 {
        lemma_split_nonempty(t.drop_last());
    }
}

/// Text without a comma extends the last piece.
proof fn lemma_split_extend(x: Seq<char>, b: Seq<char>)
    requires
        forall|i: int| 0 <= i < b.len() ==> #[trigger] b[i] != ',',
    ensures
        split_commas(x + b) == split_commas(x).update(split_commas(x).len() - 1, split_commas(x).last() + b),
    decreases b.len(),
{
    lemma_split_nonempty(x);
    if b.len() == 0 {
        assert(x + b =~= x);
        assert(split_commas(x).last() + b =~= split_commas(x).last());
        assert(split_commas(x).update(split_commas(x).len() - 1, split_commas(x).last()) =~= split_commas(x));
    } else {
        let u = b.drop_last();
        assert forall|i: int| 0 <= i < u.len() implies #[trigger] u[i] != ',' by {
            assert(u[i] == b[i]);
        }
        lemma_split_extend(x, u);
        assert(b.last() == b[b.len() - 1]);
        assert((x + b).drop_last() =~= x + u);
        assert((x + b).last() == b.last());
        lemma_split_nonempty(x + u);
        let p = split_commas(x);
        assert(p.update(p.len() - 1, p.last() + u).last() == p.last() + u);
        assert((p.last() + u).push(b.last()) =~= p.last() + b);
        assert(p.update(p.len() - 1, p.last() + u).update(p.len() - 1, (p.last() + u).push(b.last())) =~= p.update(
            p.len() - 1,
            p.last() + b,
        ));
    }
}

/// Two sequences of digits joined by a comma are two arguments.
proof fn lemma_two_digit_arguments(d1: Seq<char>, d2: Seq<char>)
    requires
        d1.len() > 0,
        d2.len() > 0,
        forall|i: int| 0 <= i < d1.len() ==> is_digit(#[trigger] d1[i]),
        forall|i: int| 0 <= i < d2.len() ==> is_digit(#[trigger] d2[i]),
    ensures
        spec_args(d1 + ","@ + d2) == seq![d1, d2],
{
    reveal_strlit(",");
    let a = d1 + ","@ + d2;
    assert forall|i: int| 0 <= i < d1.len() implies !is_white_space(#[trigger] d1[i]) && d1[i] != ',' by {
        assert(is_digit(d1[i]));
    }
    assert forall|i: int| 0 <= i < d2.len() implies !is_white_space(#[trigger] d2[i]) && d2[i] != ',' by {
        assert(is_digit(d2[i]));
    }
    assert(a[0] == d1[0]);
    assert(!is_white_space(a[0]));
    lemma_split_without_comma(d1);
    let c = d1.push(',');
    assert(c.drop_last() =~= d1);
    assert(c.last() == ',');
    assert(split_commas(c) =~= seq![d1, Seq::<char>::empty()]);
    lemma_split_extend(c, d2);
    assert(a =~= c + d2);
    assert(Seq::<char>::empty() + d2 =~= d2);
    assert(split_commas(a) =~= seq![d1, d2]);
    lemma_trim_of_unspaced(d1);
    lemma_trim_of_unspaced(d2);
    assert(seq![d1, d2].map_values(|p: Seq<char>| trim(p)) =~= seq![d1, d2]);
}

/// A `DECIMAL` with two decimal arguments, in any case and with blanks around it, parses to
/// that precision and scale, as long as both fit in a byte, or is refused with `InvalidScale`
/// when the scale exceeds the precision: `decimal(10,2)` is `Decimal(10, 2)`.
pub proof fn lemma_decimal_type_name_parses(s: Seq<char>, d1: Seq<char>, d2: Seq<char>)
    requires
        d1.len() > 0,
        d2.len() > 0,
        forall|i: int| 0 <= i < d1.len() ==> is_digit(#[trigger] d1[i]),
        forall|i: int| 0 <= i < d2.len() ==> is_digit(#[trigger] d2[i]),
        digits_value(d1) <= u8::MAX,
        digits_value(d2) <= u8::MAX,
    ensures
        ascii_uppercase_seq(trim(s)) == "DECIMAL("@ + d1 + ","@ + d2 + ")"@ ==> spec_parse_data_type(s) == if digits_value(
            d2,
        ) <= digits_value(d1) {
            Ok::<PrimitiveDataType, SchemaErrorView>(
                PrimitiveDataType::Decimal(digits_value(d1) as u8, digits_value(d2) as u8),
            )
        } else {
            Err::<PrimitiveDataType, SchemaErrorView>(
                SchemaErrorView::InvalidScale { precision: digits_value(d1) as u8, scale: digits_value(d2) as u8 },
            )
        },
{
    reveal_strlit("INT");
    reveal_strlit("INTEGER");
    reveal_strlit("BIGINT");
    reveal_strlit("VARCHAR");
    reveal_strlit("BOOLEAN");
    reveal_strlit("BOOL");
    reveal_strlit("DECIMAL");
    reveal_strlit("DECIMAL(");
    reveal_strlit("(");
    reveal_strlit(",");
    let n = ascii_uppercase_seq(trim(s));
    if n == "DECIMAL("@ + d1 + ","@ + d2 + ")"@ {
        let args = d1 + ","@ + d2;
        assert forall|i: int| 0 <= i < args.len() implies (#[trigger] args[i] == ',' || is_digit(args[i])) by {
            if i < d1.len() {
                assert(args[i] == d1[i]);
            } else if i > d1.len() {
                assert(args[i] == d2[i - d1.len() - 1]);
            }
        }
        assert("DECIMAL("@ =~= "DECIMAL"@ + "("@);
        assert(n =~= "DECIMAL"@ + "("@ + args + ")"@);
        lemma_name_with_argument_list("DECIMAL"@, args);
        lemma_trim_of_unspaced("DECIMAL"@);
        lemma_two_digit_arguments(d1, d2);
        assert(d1[0] != '+' && d2[0] != '+') by {
            assert(is_digit(d1[0]) && is_digit(d2[0]));
        }
        lemma_digits_value_nonneg(d1);
        lemma_digits_value_nonneg(d2);
        assert(spec_args(n.subrange(8int, n.len() - 1)) == seq![d1, d2]);
        assert(trim(n.subrange(0int, 7int)) == "DECIMAL"@);
    }
}

/// `NAME(args)` splits into the name and the argument text, when the arguments hold digits
/// and commas only.
proof fn lemma_name_with_argument_list(name: Seq<char>, d: Seq<char>)
    requires
        forall|i: int| 0 <= i < name.len() ==> 'A' <= #[trigger] name[i] <= 'Z',
        forall|i: int| 0 <= i < d.len() ==> (#[trigger] d[i] == ',' || is_digit(d[i])),
    ensures
        ({
            let n = name + "("@ + d + ")"@;
            &&& first_index_of(n, '(') == name.len()
            &&& n.len() > name.len()
            &&& n.last() == ')'
            &&& n.subrange(0, name.len() as int) == name
            &&& n.subrange(name.len() as int + 1, n.len() - 1) == d
        }),
{
    reveal_strlit("(");
    reveal_strlit(")");
    let n = name + "("@ + d + ")"@;
    assert forall|i: int| 0 <= i < name.len() implies #[trigger] n[i] != '(' by {
        assert(n[i] == name[i]);
    }
    assert(n[name.len() as int] == '(');
    lemma_first_index_of(n, '(', name.len() as int);
    assert(n.subrange(0, name.len() as int) =~= name);
    assert(n.subrange(name.len() as int + 1, n.len() - 1) =~= d);
}

/// Text that is blank is refused with `EmptyInput`; a name without arguments that is none of
/// the type names (`INT`, `INTEGER`, `BIGINT`, `VARCHAR`, `BOOLEAN`, `BOOL`, `DECIMAL`,
/// `DATETIME`, `FLOAT`, `DOUBLE`, `BLOB`), in any case, is refused with `UnknownType` holding
/// the name in upper case.
pub proof fn lemma_unknown_type_names_are_refused(s: Seq<char>)
    ensures
        trim(s).len() == 0 ==> spec_parse_data_type(s) == Err::<PrimitiveDataType, SchemaErrorView>(
            SchemaErrorView::EmptyInput,
        ),
        ({
            let n = ascii_uppercase_seq(trim(s));
            n.len() > 0 && (forall|i: int| 0 <= i < n.len() ==> #[trigger] n[i] != '(') && n != "INT"@ && n
                != "INTEGER"@ && n != "BIGINT"@ && n != "VARCHAR"@ && n != "BOOLEAN"@ && n != "BOOL"@ && n
                != "DECIMAL"@ && n != "DATETIME"@ && n != "FLOAT"@ && n != "DOUBLE"@ && n != "BLOB"@
                ==> spec_parse_data_type(s) == Err::<PrimitiveDataType, SchemaErrorView>(
                SchemaErrorView::UnknownType(n),
            )
        }),
{
    let n = ascii_uppercase_seq(trim(s));
    if n.len() > 0 && (forall|i: int| 0 <= i < n.len() ==> #[trigger] n[i] != '(') {
        lemma_first_index_of(n, '(', n.len() as int);
    }
}

} // verus!
