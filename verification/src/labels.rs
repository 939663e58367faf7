//! Labels are told apart by their text: two labels that the counter hands
//! out are the same text only if they have the same prefix and the same
//! number, and none is the name of a trampoline.

use vstd::prelude::*;
use crate::codegen::label_name;
use crate::text::{digit_char, nat_text};

verus! {

/// Whether a character is a decimal digit.
pub open spec fn is_digit(c: char) -> bool {
    c == '0' || c == '1' || c == '2' || c == '3' || c == '4' || c == '5' || c == '6' || c == '7'
        || c == '8' || c == '9'
}

/// The decimal text of a natural number is not empty, and each of its
/// characters is a digit.
pub proof fn lemma_nat_text_digits(n: nat)
    ensures
        nat_text(n).len() >= 1,
        n >= 10 ==> nat_text(n).len() >= 2,
        forall|i: int| 0 <= i < nat_text(n).len() ==> is_digit(#[trigger] nat_text(n)[i]),
    decreases n,
{
    if n >= 10 {
        lemma_nat_text_digits(n / 10);
    }
}

/// Two natural numbers with the same decimal text are the same number.
pub proof fn lemma_nat_text_injective(a: nat, b: nat)
    requires
        nat_text(a) == nat_text(b),
    ensures
        a == b,
    decreases a,
{
    lemma_nat_text_digits(a);
    lemma_nat_text_digits(b);
    if a < 10 && b < 10 {
        assert(nat_text(a)[0] == digit_char(a as int));
        assert(nat_text(b)[0] == digit_char(b as int));
    } else if a >= 10 && b >= 10 {
        let ta = nat_text(a / 10);
        let tb = nat_text(b / 10);
        let da = digit_char((a % 10) as int);
        let db = digit_char((b % 10) as int);
        assert(nat_text(a) == ta.push(da));
        assert(nat_text(b) == tb.push(db));
        assert(ta.push(da).last() == da);
        assert(tb.push(db).last() == db);
        assert(ta.push(da).drop_last() =~= ta);
        assert(tb.push(db).drop_last() =~= tb);
        lemma_nat_text_injective(a / 10, b / 10);
    } else {
        assert(nat_text(a).len() != nat_text(b).len());
    }
}

/// A label with a number that is not negative ends in a digit.
pub proof fn lemma_label_ends_in_digit(prefix: Seq<char>, k: int)
    requires
        k >= 0,
    ensures
        label_name(prefix, k).len() > 0,
        is_digit(label_name(prefix, k).last()),
{
    lemma_nat_text_digits(k as nat);
    let text = nat_text(k as nat);
    let name = label_name(prefix, k);
    assert(name.last() == text.last());
    assert(is_digit(text[text.len() - 1]));
}

/// A label with a number that is not negative is not the name of a
/// trampoline.
pub proof fn lemma_label_is_no_trap(prefix: Seq<char>, k: int)
    requires
        k >= 0,
    ensures
        label_name(prefix, k) != "invalid_arg"@,
        label_name(prefix, k) != "overflow"@,
{
    lemma_label_ends_in_digit(prefix, k);
    reveal_strlit("invalid_arg");
    reveal_strlit("overflow");
    assert("invalid_arg"@.last() == 'g');
    assert("overflow"@.last() == 'w');
}

/// Whether a prefix is one of the four that the compiler gives to labels.
pub open spec fn label_prefix(prefix: Seq<char>) -> bool {
    prefix == "if"@ || prefix == "endif"@ || prefix == "loop"@ || prefix == "loopend"@
}

/// Labels are unique: two labels that the counter hands out are the same
/// text only if they have the same prefix and the same number.
pub proof fn lemma_labels_differ(p1: Seq<char>, k1: int, p2: Seq<char>, k2: int)
    requires
        label_prefix(p1),
        label_prefix(p2),
        k1 >= 0,
        k2 >= 0,
        p1 != p2 || k1 != k2,
    ensures
        label_name(p1, k1) != label_name(p2, k2),
{
    let n1 = label_name(p1, k1);
    let n2 = label_name(p2, k2);
    reveal_strlit("if");
    reveal_strlit("endif");
    reveal_strlit("loop");
    reveal_strlit("loopend");
    reveal_strlit("_");
    lemma_nat_text_digits(k1 as nat);
    lemma_nat_text_digits(k2 as nat);
    if p1 != p2 {
        assert(n1[0] == p1[0]);
        assert(n2[0] == p2[0]);
        if p1[0] == p2[0] {
            // one is `loop` and the other `loopend`: they part at the fifth character
            if p1 == "loop"@ {
                assert(n1[4] == '_');
                assert(n2[4] == p2[4]);
            } else {
                assert(n2[4] == '_');
                assert(n1[4] == p1[4]);
            }
        }
    } else {
        if n1 == n2 {
            let start = p1.len() + 1;
            assert(n1.subrange(start as int, n1.len() as int) =~= nat_text(k1 as nat));
            assert(n2.subrange(start as int, n2.len() as int) =~= nat_text(k2 as nat));
            lemma_nat_text_injective(k1 as nat, k2 as nat);
        }
    }
}

} // verus!
