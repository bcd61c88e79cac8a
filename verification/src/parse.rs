//! Reading the persisted registry text back: a strict parser for the
//! canonical pretty-printed rendering. Both directions are proved: on every
//! canonical rendering the parser succeeds with the rendered value, and
//! whatever it accepts renders back to exactly the text read, so corrupt
//! text can never come back as a registry.

use vstd::prelude::*;
use crate::decimal::all_digits;
use crate::decimal::lemma_dec_first_digit;
use crate::decimal::lemma_dec_nat_digits;
use crate::decimal::lemma_dec_nat_value;
use crate::decimal::lemma_dec_of_digits;
use crate::decimal::lemma_digits_val_nonneg;
use crate::decimal::lemma_digits_val_take_le;
use crate::decimal::spec_dec_int;
use crate::decimal::spec_dec_nat;
use crate::decimal::spec_digit_val;
use crate::decimal::spec_digits_val;
use crate::codec::encode_registry;
use crate::codec::push_char;
use crate::codec::spec_container_json;
use crate::codec::spec_entry_json;
use crate::codec::spec_history_items;
use crate::codec::spec_history_json;
use crate::codec::spec_registry_items;
use crate::codec::spec_registry_json;
use crate::codec::spec_esc;
use crate::codec::spec_esc_char;
use crate::codec::spec_quoted;
use crate::model::ContainerModel;
use crate::model::EntryModel;
use crate::model::HistoryEntry;
use crate::model::Registry;
use crate::model::StatefulContainer;
use crate::model::containers_view;
use crate::model::history_view;

verus! {

/// Splitting a known concatenation at its seam.
proof fn lemma_slice_head(v: Seq<char>, pos: int, a: Seq<char>, b: Seq<char>)
    requires
        0 <= pos,
        pos + a.len() + b.len() <= v.len(),
        v.subrange(pos, pos + a.len() + b.len()) == a + b,
    ensures
        v.subrange(pos, pos + a.len()) =~= a,
        v.subrange(pos + a.len(), pos + a.len() + b.len()) =~= b,
{
    assert forall|i: int| 0 <= i < a.len() implies v.subrange(pos, pos + a.len())[i] == a[i] by {
        assert((a + b)[i] == v.subrange(pos, pos + a.len() + b.len())[i]);
    }
    assert forall|i: int| 0 <= i < b.len() implies v.subrange(
        pos + a.len(),
        pos + a.len() + b.len(),
    )[i] == b[i] by {
        assert((a + b)[a.len() + i] == b[i]);
        assert(v.subrange(pos, pos + a.len() + b.len())[a.len() + i] == v[pos + a.len() + i]);
        assert(v.subrange(pos + a.len(), pos + a.len() + b.len())[i] == v[pos + a.len() + i]);
    }
}

/// Two adjacent pieces of the input glue back together.
proof fn lemma_subrange_glue(v: Seq<char>, a: int, b: int, c: int)
    requires
        0 <= a <= b <= c <= v.len(),
    ensures
        v.subrange(a, c) =~= v.subrange(a, b) + v.subrange(b, c),
{
}

/// The escaped text splits around any one source character.
proof fn lemma_esc_split(x: Seq<char>, j: int)
    requires
        0 <= j < x.len(),
    ensures
        spec_esc(x) =~= spec_esc(x.take(j)) + spec_esc_char(x[j]) + spec_esc(x.skip(j + 1)),
    decreases x.len(),
{
    if j == x.len() - 1 {
        assert(x.drop_last() =~= x.take(j));
        assert(x.skip(j + 1) =~= Seq::<char>::empty());
    } else {
        lemma_esc_split(x.drop_last(), j);
        assert(x.drop_last().take(j) =~= x.take(j));
        assert(x.drop_last().skip(j + 1) =~= x.skip(j + 1).drop_last());
        assert(x.skip(j + 1).len() > 0);
        assert(x.skip(j + 1).last() == x.last());
        assert(spec_esc(x.skip(j + 1)) == spec_esc(x.skip(j + 1).drop_last()) + spec_esc_char(
            x.last(),
        ));
    }
}

/// Appending one source character appends its escaped form.
proof fn lemma_esc_snoc(x: Seq<char>, c: char)
    ensures
        spec_esc(x.push(c)) =~= spec_esc(x) + spec_esc_char(c),
{
    assert(x.push(c).drop_last() =~= x);
    assert(x.push(c).last() == c);
}

/// Where one character of the source text stands inside its rendering.
proof fn lemma_quoted_at(x: Seq<char>, j: int)
    requires
        0 <= j < x.len(),
    ensures
        spec_esc(x).len() >= spec_esc(x.take(j)).len() + spec_esc_char(x[j]).len(),
        spec_quoted(x)[1 + spec_esc(x.take(j)).len() as int] == spec_esc_char(x[j])[0],
        spec_esc_char(x[j]).len() == 2 ==> spec_quoted(x)[2 + spec_esc(x.take(j)).len() as int]
            == spec_esc_char(x[j])[1],
{
    lemma_esc_split(x, j);
    let a = spec_esc(x.take(j));
    let b = spec_esc_char(x[j]);
    let c = spec_esc(x.skip(j + 1));
    assert(spec_esc(x)[a.len() as int] == (a + b + c)[a.len() as int]);
    assert((a + b + c)[a.len() as int] == b[0]);
    assert(spec_quoted(x)[1 + a.len() as int] == spec_esc(x)[a.len() as int]);
    if b.len() == 2 {
        assert(spec_esc(x)[a.len() as int + 1] == (a + b + c)[a.len() as int + 1]);
        assert((a + b + c)[a.len() as int + 1] == b[1]);
        assert(spec_quoted(x)[2 + a.len() as int] == spec_esc(x)[a.len() as int + 1]);
    }
}

/// The characters of a string as a vector, for position-indexed reading.
fn to_chars(s: &str) -> (v: Vec<char>)
    ensures
        v@ =~= s@,
{
    let n = s.unicode_len();
    let mut v: Vec<char> = Vec::new();
    let mut i: usize = 0;
    while i < n
        invariant
            i <= n,
            n == s@.len(),
            v@ =~= s@.take(i as int),
        decreases n - i,
    {
        v.push(s.get_char(i));
        proof {
            assert(s@.take(i as int + 1) =~= s@.take(i as int).push(s@[i as int]));
        }
        i = i + 1;
    }
    proof {
        assert(s@.take(n as int) =~= s@);
    }
    v
}

/// Consumes the exact literal at `pos`, or refuses.
fn parse_lit(v: &Vec<char>, pos: usize, lit: &str) -> (r: Option<usize>)
    requires
        pos <= v.len(),
    ensures
        r matches Some(p2) ==> p2 == pos + lit@.len() && p2 <= v.len() && v@.subrange(
            pos as int,
            p2 as int,
        ) =~= lit@,
        pos + lit@.len() <= v.len() && v@.subrange(pos as int, pos as int + lit@.len() as int)
            == lit@ ==> r is Some,
    {
    let n = lit.unicode_len();
    if n > v.len() - pos {
        return None;
    }
    let mut j: usize = 0;
    while j < n
        invariant
            j <= n,
            n == lit@.len(),
            pos + n <= v.len(),
            forall|m: int| 0 <= m < j ==> v@[pos + m] == lit@[m],
        decreases n - j,
    {
        let c = v[pos + j];
        if c != lit.get_char(j) {
            proof {
                if pos + lit@.len() <= v.len() && v@.subrange(
                    pos as int,
                    pos as int + lit@.len() as int,
                ) == lit@ {
                    assert(v@.subrange(pos as int, pos as int + lit@.len() as int)[j as int]
                        == lit@[j as int]);
                }
            }
            return None;
        }
        j = j + 1;
    }
    proof {
        assert(v@.subrange(pos as int, (pos + n) as int) =~= lit@);
    }
    Some(pos + n)
}

/// Consumes one JSON string at `pos`. Wherever the canonical rendering of
/// some text stands there, that text comes back; and whatever comes back
/// renders to exactly the consumed characters.
fn parse_quoted(v: &Vec<char>, pos: usize, expect: Ghost<Option<Seq<char>>>) -> (r: Option<
    (String, usize),
>)
    requires
        pos <= v.len(),
        expect@ matches Some(x) ==> pos + spec_quoted(x).len() <= v.len() && v@.subrange(
            pos as int,
            pos + spec_quoted(x).len(),
        ) == spec_quoted(x),
    ensures
        r matches Some((s, p2)) ==> pos < p2 <= v.len() && v@.subrange(pos as int, p2 as int)
            =~= spec_quoted(s@),
        expect@ matches Some(x) ==> (r matches Some((s, p2)) && s@ == x && p2 == pos
            + spec_quoted(x).len()),
{
    if pos >= v.len() {
        proof {
            if let Some(x) = expect@ {
                assert(spec_quoted(x).len() >= 2);
            }
        }
        return None;
    }
    if v[pos] != '"' {
        proof {
            if let Some(x) = expect@ {
                assert(v@.subrange(pos as int, pos + spec_quoted(x).len())[0] == '"');
            }
        }
        return None;
    }
    let mut out = String::new();
    let mut cursor: usize = pos + 1;
    proof {
        assert(v@.subrange(pos as int + 1, cursor as int) =~= spec_esc(out@));
    }
    loop
        invariant
            pos + 1 <= cursor <= v.len() + 2,
            cursor <= v.len() || cursor == pos + 1,
            pos < v.len(),
            v@[pos as int] == '"',
            v@.subrange(pos as int + 1, cursor as int) =~= spec_esc(out@),
            expect@ matches Some(x) ==> {
                &&& out@.len() <= x.len()
                &&& out@ =~= x.take(out@.len() as int)
                &&& cursor == pos + 1 + spec_esc(x.take(out@.len() as int)).len()
                &&& pos + spec_quoted(x).len() <= v.len()
                &&& v@.subrange(pos as int, pos + spec_quoted(x).len()) == spec_quoted(x)
            },
        decreases v.len() - cursor,
    {
        proof {
            if let Some(x) = expect@ {
                let j = out@.len() as int;
                if j < x.len() {
                    lemma_quoted_at(x, j);
                } else {
                    assert(x.take(j) =~= x);
                }
                assert(spec_quoted(x).len() == spec_esc(x).len() + 2);
                assert(cursor < v.len());
                assert(v@.subrange(pos as int, pos + spec_quoted(x).len())[cursor - pos]
                    == spec_quoted(x)[cursor - pos]);
                assert(v@[cursor as int] == spec_quoted(x)[cursor - pos]);
            }
        }
        if cursor >= v.len() {
            return None;
        }
        let c = v[cursor];
        if c == '"' {
            proof {
                if let Some(x) = expect@ {
                    let j = out@.len() as int;
                    if j < x.len() {
                        assert(v@[cursor as int] == spec_esc_char(x[j])[0]);
                        assert(spec_esc_char(x[j])[0] != '"');
                    }
                    assert(out@ =~= x);
                }
                assert(v@.subrange(pos as int, cursor as int + 1) =~= seq!['"'] + spec_esc(out@)
                    + seq!['"']);
            }
            return Some((out, cursor + 1));
        }
        proof {
            if let Some(x) = expect@ {
                let j = out@.len() as int;
                if j >= x.len() {
                    assert(spec_quoted(x)[1 + spec_esc(x).len() as int] == '"');
                    assert(v@[cursor as int] == '"');
                }
            }
        }
        if c == '\\' {
            proof {
                if let Some(x) = expect@ {
                    let j = out@.len() as int;
                    assert(j < x.len());
                    assert(v@[cursor as int] == spec_esc_char(x[j])[0]);
                    assert(x[j] == '\\' || x[j] == '"');
                    assert(spec_esc_char(x[j]).len() == 2);
                    assert(cursor + 1 < v.len());
                    assert(v@.subrange(pos as int, pos + spec_quoted(x).len())[cursor + 1 - pos]
                        == spec_quoted(x)[cursor + 1 - pos]);
                    assert(v@[cursor as int + 1] == spec_quoted(x)[2 + spec_esc(
                        x.take(j),
                    ).len() as int]);
                    assert(v@[cursor as int + 1] == spec_esc_char(x[j])[1]);
                }
            }
            if cursor + 1 >= v.len() {
                return None;
            }
            let d = v[cursor + 1];
            if d == '\\' || d == '"' {
                let ghost prev = out@;
                push_char(&mut out, d);
                proof {
                    lemma_esc_snoc(prev, d);
                    assert(spec_esc_char(d) =~= seq!['\\', d]);
                    assert(v@.subrange(pos as int + 1, cursor as int + 2) =~= v@.subrange(
                        pos as int + 1,
                        cursor as int,
                    ) + seq![v@[cursor as int], v@[cursor as int + 1]]);
                    assert(v@.subrange(pos as int + 1, cursor as int + 2) =~= spec_esc(out@));
                    if let Some(x) = expect@ {
                        let j = (out@.len() - 1) as int;
                        assert(d == x[j]);
                        assert(x.take(j + 1) =~= x.take(j).push(x[j]));
                        lemma_esc_snoc(x.take(j), x[j]);
                    }
                }
                cursor = cursor + 2;
            } else {
                return None;
            }
        } else {
            proof {
                if let Some(x) = expect@ {
                    let j = out@.len() as int;
                    assert(j < x.len());
                    assert(v@[cursor as int] == spec_esc_char(x[j])[0]);
                    assert(c == x[j]);
                }
            }
            let ghost prev = out@;
            push_char(&mut out, c);
            proof {
                lemma_esc_snoc(prev, c);
                assert(spec_esc_char(c) =~= seq![c]);
                assert(v@.subrange(pos as int + 1, cursor as int + 1) =~= v@.subrange(
                    pos as int + 1,
                    cursor as int,
                ) + seq![v@[cursor as int]]);
                assert(v@.subrange(pos as int + 1, cursor as int + 1) =~= spec_esc(out@));
                if let Some(x) = expect@ {
                    let j = (out@.len() - 1) as int;
                    assert(x.take(j + 1) =~= x.take(j).push(x[j]));
                    lemma_esc_snoc(x.take(j), x[j]);
                }
            }
            cursor = cursor + 1;
        }
    }
}

/// The digit a character denotes, or ten for any other character.
fn digit_of(c: char) -> (d: u64)
    ensures
        d <= 10,
        d < 10 ==> d as int == spec_digit_val(c),
        d == 10 ==> spec_digit_val(c) == -1,
{
    if c == '0' {
        0
    } else if c == '1' {
        1
    } else if c == '2' {
        2
    } else if c == '3' {
        3
    } else if c == '4' {
        4
    } else if c == '5' {
        5
    } else if c == '6' {
        6
    } else if c == '7' {
        7
    } else if c == '8' {
        8
    } else if c == '9' {
        9
    } else {
        10
    }
}

/// Consumes one decimal integer at `pos`: an optional minus sign, then a
/// digit run without a leading zero. Wherever the canonical rendering of a
/// number stands there, followed by something other than a digit, that
/// number comes back; and whatever comes back renders to exactly the
/// consumed characters.
fn parse_i64(v: &Vec<char>, pos: usize, expect: Ghost<Option<int>>) -> (r: Option<(i64, usize)>)
    requires
        pos <= v.len(),
        expect@ matches Some(n) ==> {
            &&& i64::MIN <= n <= i64::MAX
            &&& pos + spec_dec_int(n).len() <= v.len()
            &&& v@.subrange(pos as int, pos + spec_dec_int(n).len()) == spec_dec_int(n)
            &&& (pos + spec_dec_int(n).len() == v.len() || spec_digit_val(
                v@[pos + spec_dec_int(n).len()],
            ) == -1)
        },
    ensures
        r matches Some((x, p2)) ==> pos < p2 <= v.len() && v@.subrange(pos as int, p2 as int)
            =~= spec_dec_int(x as int),
        expect@ matches Some(n) ==> (r matches Some((x, p2)) && x as int == n && p2 == pos
            + spec_dec_int(n).len()),
{
    let ghost mag: nat = match expect@ {
        Some(n) => if n < 0 {
            (-n) as nat
        } else {
            n as nat
        },
        None => 0,
    };
    proof {
        if expect@ is Some {
            lemma_dec_nat_digits(mag);
            lemma_dec_nat_value(mag);
        }
    }
    let mut cursor: usize = pos;
    let mut neg = false;
    proof {
        if let Some(n) = expect@ {
            if n < 0 {
                assert(v@.subrange(pos as int, pos + spec_dec_int(n).len())[0] == '-');
            } else {
                assert(v@.subrange(pos as int, pos + spec_dec_int(n).len())[0] == spec_dec_nat(
                    mag,
                )[0]);
                assert(spec_digit_val(spec_dec_nat(mag)[0]) >= 0);
            }
        }
    }
    if cursor < v.len() && v[cursor] == '-' {
        neg = true;
        cursor = cursor + 1;
    }
    let ghost dstart = cursor as int;
    proof {
        if let Some(n) = expect@ {
            assert(neg <==> n < 0);
            if n < 0 {
                lemma_slice_head(v@, pos as int, seq!['-'], spec_dec_nat(mag));
            }
            assert(v@.subrange(dstart, dstart + spec_dec_nat(mag).len()) =~= spec_dec_nat(mag));
        }
        assert(v@.subrange(dstart, cursor as int) =~= Seq::<char>::empty());
        assert(spec_digits_val(Seq::<char>::empty()) == 0);
    }
    let mut acc: u64 = 0;
    let mut count: usize = 0;
    let mut lead_zero = false;
    loop
        invariant
            pos <= cursor <= v.len(),
            pos <= dstart <= v.len(),
            cursor == dstart + count,
            all_digits(v@.subrange(dstart, cursor as int)),
            acc as int == spec_digits_val(v@.subrange(dstart, cursor as int)),
            count >= 1 ==> (lead_zero <==> spec_digit_val(v@.subrange(dstart, cursor as int)[0])
                == 0),
            neg ==> dstart == pos + 1 && v@[pos as int] == '-',
            !neg ==> dstart == pos as int,
            expect@ matches Some(n) ==> {
                &&& count <= spec_dec_nat(mag).len()
                &&& acc as int == spec_digits_val(spec_dec_nat(mag).take(count as int))
                &&& (neg <==> n < 0)
                &&& dstart + spec_dec_nat(mag).len() <= v.len()
                &&& v@.subrange(dstart, dstart + spec_dec_nat(mag).len()) == spec_dec_nat(mag)
                &&& mag <= 9223372036854775808
                &&& spec_digits_val(spec_dec_nat(mag)) == mag
                &&& all_digits(spec_dec_nat(mag))
                &&& spec_dec_nat(mag).len() >= 1
                &&& (dstart + spec_dec_nat(mag).len() == v.len() || spec_digit_val(
                    v@[dstart + spec_dec_nat(mag).len()],
                ) == -1)
            },
        ensures
            pos <= cursor <= v.len(),
            pos <= dstart,
            cursor == dstart + count,
            all_digits(v@.subrange(dstart, cursor as int)),
            acc as int == spec_digits_val(v@.subrange(dstart, cursor as int)),
            count >= 1 ==> (lead_zero <==> spec_digit_val(v@.subrange(dstart, cursor as int)[0])
                == 0),
            neg ==> dstart == pos + 1 && v@[pos as int] == '-',
            !neg ==> dstart == pos as int,
            expect@ matches Some(n) ==> {
                &&& count == spec_dec_nat(mag).len()
                &&& acc as int == mag
                &&& (neg <==> n < 0)
                &&& spec_dec_nat(mag).len() >= 1
                &&& mag <= 9223372036854775808
                &&& v@.subrange(dstart, cursor as int) == spec_dec_nat(mag)
            },
        decreases v.len() - cursor,
    {
        proof {
            if expect@ is Some {
                if count < spec_dec_nat(mag).len() {
                    assert(v@.subrange(dstart, dstart + spec_dec_nat(mag).len())[count as int]
                        == spec_dec_nat(mag)[count as int]);
                    assert(spec_digit_val(v@[cursor as int]) >= 0);
                }
            }
        }
        if cursor >= v.len() {
            proof {
                if expect@ is Some {
                    if count < spec_dec_nat(mag).len() {
                        assert(cursor < v.len());
                    }
                    assert(spec_dec_nat(mag).take(count as int) =~= spec_dec_nat(mag));
                }
            }
            break;
        }
        let d = digit_of(v[cursor]);
        if d == 10 {
            proof {
                if expect@ is Some {
                    if count < spec_dec_nat(mag).len() {
                        assert(spec_digit_val(v@[cursor as int]) >= 0);
                    }
                    assert(spec_dec_nat(mag).take(count as int) =~= spec_dec_nat(mag));
                }
            }
            break;
        }
        proof {
            let run2 = v@.subrange(dstart, cursor as int + 1);
            assert(run2.drop_last() =~= v@.subrange(dstart, cursor as int));
            assert(run2.last() == v@[cursor as int]);
            assert(all_digits(run2));
            if expect@ is Some {
                let cnt = count as int;
                if cnt == spec_dec_nat(mag).len() {
                    assert(spec_digit_val(v@[cursor as int]) == -1);
                }
                assert(cnt < spec_dec_nat(mag).len());
                assert(spec_dec_nat(mag).take(cnt + 1).drop_last() =~= spec_dec_nat(mag).take(cnt));
                assert(spec_dec_nat(mag).take(cnt + 1).last() == spec_dec_nat(mag)[cnt]);
                assert(spec_digits_val(spec_dec_nat(mag).take(cnt + 1)) == acc as int * 10
                    + d as int);
                lemma_digits_val_take_le(spec_dec_nat(mag), cnt + 1);
                assert(acc as int * 10 + d as int <= mag);
            }
        }
        if acc > (u64::MAX - d) / 10 {
            return None;
        }
        if count == 0 {
            lead_zero = d == 0;
        }
        acc = acc * 10 + d;
        count = count + 1;
        cursor = cursor + 1;
    }
    if count == 0 {
        return None;
    }
    if lead_zero && count > 1 {
        proof {
            if expect@ is Some {
                assert(spec_dec_nat(mag).len() > 1);
                assert(mag >= 10) by {
                    if mag < 10 {
                        assert(spec_dec_nat(mag).len() == 1);
                    }
                }
                lemma_dec_first_digit(mag);
                assert(v@.subrange(dstart, cursor as int)[0] == spec_dec_nat(mag)[0]);
                assert(false);
            }
        }
        return None;
    }
    let ghost run = v@.subrange(dstart, cursor as int);
    proof {
        assert(run.len() == count);
        if count > 1 {
            assert(spec_digit_val(run[0]) != 0);
            assert(spec_digit_val(run[0]) >= 0);
        }
        lemma_dec_of_digits(run);
        lemma_digits_val_nonneg(run);
        assert(spec_dec_nat(acc as nat) =~= run);
    }
    if neg {
        if acc == 0 {
            proof {
                if let Some(n) = expect@ {
                    assert(mag >= 1);
                    assert(false);
                }
            }
            return None;
        }
        if acc > 9223372036854775808u64 {
            return None;
        }
        let x: i64 = if acc == 9223372036854775808u64 {
            i64::MIN
        } else {
            0i64 - (acc as i64)
        };
        proof {
            assert(spec_dec_int(x as int) == seq!['-'] + spec_dec_nat(acc as nat));
            assert(v@.subrange(pos as int, cursor as int) =~= seq!['-'] + run);
        }
        Some((x, cursor))
    } else {
        if acc > 9223372036854775807u64 {
            return None;
        }
        Some((acc as i64, cursor))
    }
}

/// Concrete facts about the punctuation of the persisted format.
proof fn lemma_format_lits()
    ensures
        "      {\n        \"container_id\": "@.len() == 32,
        ",\n        \"timestamp\": "@.len() == 23,
        ",\n        \"image\": "@.len() == 19,
        ",\n        \"image\": "@[0] == ',',
        "\n      }"@.len() == 8,
        "  {\n    \"name\": "@.len() == 16,
        ",\n    \"image\": "@.len() == 15,
        ",\n    \"history\": "@.len() == 17,
        "\n  }"@.len() == 4,
        "["@.len() == 1,
        "["@ =~= seq!['['],
        "[]"@.len() == 2,
        "[]"@[0] == '[',
        "[]"@[1] == ']',
        "[\n"@.len() == 2,
        "[\n"@[0] == '[',
        "[\n"@[1] == '\n',
        "[\n"@ =~= seq!['['] + seq!['\n'],
        ",\n"@.len() == 2,
        ",\n"@[0] == ',',
        "\n    ]"@.len() == 6,
        "\n    ]"@[0] == '\n',
        "\n]"@.len() == 2,
        "\n]"@[0] == '\n',
{
    broadcast use vstd::string::group_string_axioms;

    reveal_strlit("      {\n        \"container_id\": ");
    reveal_strlit(",\n        \"timestamp\": ");
    reveal_strlit(",\n        \"image\": ");
    reveal_strlit("\n      }");
    reveal_strlit("  {\n    \"name\": ");
    reveal_strlit(",\n    \"image\": ");
    reveal_strlit(",\n    \"history\": ");
    reveal_strlit("\n  }");
    reveal_strlit("[");
    reveal_strlit("[]");
    reveal_strlit("[\n");
    reveal_strlit(",\n");
    reveal_strlit("\n    ]");
    reveal_strlit("\n]");
    assert("      {\n        \"container_id\": "@.len() == 32);
    assert(",\n        \"timestamp\": "@.len() == 23);
    assert(",\n        \"image\": "@.len() == 19);
    assert("\n      }"@.len() == 8);
    assert("  {\n    \"name\": "@.len() == 16);
    assert(",\n    \"image\": "@.len() == 15);
    assert(",\n    \"history\": "@.len() == 17);
    assert("\n  }"@.len() == 4);
    assert("["@.len() == 1);
    assert("[]"@.len() == 2);
    assert("[\n"@.len() == 2);
    assert(",\n"@.len() == 2);
    assert("\n    ]"@.len() == 6);
    assert("\n]"@.len() == 2);
}

/// The persisted timestamp fits the stored integer type.
pub open spec fn entry_ts_ok(e: EntryModel) -> bool {
    i64::MIN <= e.timestamp <= i64::MAX
}

/// Every timestamp of the history fits the stored integer type.
pub open spec fn history_ts_ok(h: Seq<EntryModel>) -> bool {
    forall|j: int| 0 <= j < h.len() ==> entry_ts_ok(#[trigger] h[j])
}

/// Consumes one history entry at `pos`. Wherever the canonical rendering of
/// an entry stands there, that entry comes back; and whatever comes back
/// renders to exactly the consumed characters.
fn parse_entry(v: &Vec<char>, pos: usize, expect: Ghost<Option<EntryModel>>) -> (r: Option<
    (HistoryEntry, usize),
>)
    requires
        pos <= v.len(),
        expect@ matches Some(e) ==> {
            &&& entry_ts_ok(e)
            &&& pos + spec_entry_json(e).len() <= v.len()
            &&& v@.subrange(pos as int, pos + spec_entry_json(e).len()) == spec_entry_json(e)
        },
    ensures
        r matches Some((h, p2)) ==> pos < p2 <= v.len() && v@.subrange(pos as int, p2 as int)
            =~= spec_entry_json(h@),
        expect@ matches Some(e) ==> (r matches Some((h, p2)) && h@ == e && p2 == pos
            + spec_entry_json(e).len()),
{
    proof {
        lemma_format_lits();
        if let Some(e) = expect@ {
            let a1 = "      {\n        \"container_id\": "@;
            let q1 = spec_quoted(e.container_id);
            let a2 = ",\n        \"timestamp\": "@;
            let num = spec_dec_int(e.timestamp);
            let a3 = ",\n        \"image\": "@;
            let q2 = spec_quoted(e.image);
            let a4 = "\n      }"@;
            assert(spec_entry_json(e) =~= a1 + (q1 + (a2 + (num + (a3 + (q2 + a4))))));
            lemma_slice_head(v@, pos as int, a1, q1 + (a2 + (num + (a3 + (q2 + a4)))));
            lemma_slice_head(v@, pos + a1.len(), q1, a2 + (num + (a3 + (q2 + a4))));
            lemma_slice_head(v@, pos + a1.len() + q1.len(), a2, num + (a3 + (q2 + a4)));
            lemma_slice_head(v@, pos + a1.len() + q1.len() + a2.len(), num, a3 + (q2 + a4));
            lemma_slice_head(
                v@,
                pos + a1.len() + q1.len() + a2.len() + num.len(),
                a3,
                q2 + a4,
            );
            lemma_slice_head(
                v@,
                pos + a1.len() + q1.len() + a2.len() + num.len() + a3.len(),
                q2,
                a4,
            );
            let numend = pos + a1.len() + q1.len() + a2.len() + num.len();
            assert(v@[numend as int] == (a3 + (q2 + a4))[0]);
            assert(spec_digit_val(v@[numend as int]) == -1);
        }
    }
    let p1 = match parse_lit(v, pos, "      {\n        \"container_id\": ") {
        Some(p) => p,
        None => {
            return None;
        },
    };
    let ghost eid: Option<Seq<char>> = match expect@ {
        Some(e) => Some(e.container_id),
        None => None,
    };
    let (container_id, p2) = match parse_quoted(v, p1, Ghost(eid)) {
        Some(x) => x,
        None => {
            return None;
        },
    };
    let p3 = match parse_lit(v, p2, ",\n        \"timestamp\": ") {
        Some(p) => p,
        None => {
            return None;
        },
    };
    let ghost ets: Option<int> = match expect@ {
        Some(e) => Some(e.timestamp),
        None => None,
    };
    let (timestamp, p4) = match parse_i64(v, p3, Ghost(ets)) {
        Some(x) => x,
        None => {
            return None;
        },
    };
    let p5 = match parse_lit(v, p4, ",\n        \"image\": ") {
        Some(p) => p,
        None => {
            return None;
        },
    };
    let ghost eimg: Option<Seq<char>> = match expect@ {
        Some(e) => Some(e.image),
        None => None,
    };
    let (image, p6) = match parse_quoted(v, p5, Ghost(eimg)) {
        Some(x) => x,
        None => {
            return None;
        },
    };
    let p7 = match parse_lit(v, p6, "\n      }") {
        Some(p) => p,
        None => {
            return None;
        },
    };
    let entry = HistoryEntry { container_id, timestamp, image };
    proof {
        lemma_subrange_glue(v@, pos as int, p1 as int, p2 as int);
        lemma_subrange_glue(v@, pos as int, p2 as int, p3 as int);
        lemma_subrange_glue(v@, pos as int, p3 as int, p4 as int);
        lemma_subrange_glue(v@, pos as int, p4 as int, p5 as int);
        lemma_subrange_glue(v@, pos as int, p5 as int, p6 as int);
        lemma_subrange_glue(v@, pos as int, p6 as int, p7 as int);
        assert(v@.subrange(pos as int, p7 as int) =~= spec_entry_json(entry@));
    }
    Some((entry, p7))
}

/// The comma-separated items, read from the front.
proof fn lemma_history_items_front(h: Seq<EntryModel>)
    requires
        h.len() >= 1,
    ensures
        spec_history_items(h) =~= spec_entry_json(h[0]) + (if h.len() == 1 {
            Seq::<char>::empty()
        } else {
            ",\n"@ + spec_history_items(h.skip(1))
        }),
    decreases h.len(),
{
    if h.len() == 1 {
        assert(h.last() == h[0]);
    } else {
        lemma_history_items_front(h.drop_last());
        assert(h.drop_last()[0] == h[0]);
        if h.len() == 2 {
            assert(h.skip(1).len() == 1);
            assert(h.skip(1).last() == h.last());
        } else {
            assert(h.drop_last().skip(1) =~= h.skip(1).drop_last());
            assert(h.skip(1).len() >= 2);
            assert(h.skip(1).last() == h.last());
            assert(spec_history_items(h.skip(1)) == spec_history_items(h.skip(1).drop_last())
                + ",\n"@ + spec_entry_json(h.skip(1).last()));
        }
    }
}

/// Consumes one persisted history at `pos`. Wherever the canonical
/// rendering of a history stands there, that history comes back, in order;
/// and whatever comes back renders to exactly the consumed characters.
fn parse_history(v: &Vec<char>, pos: usize, expect: Ghost<Option<Seq<EntryModel>>>) -> (r: Option<
    (Vec<HistoryEntry>, usize),
>)
    requires
        pos <= v.len(),
        expect@ matches Some(h) ==> {
            &&& history_ts_ok(h)
            &&& pos + spec_history_json(h).len() <= v.len()
            &&& v@.subrange(pos as int, pos + spec_history_json(h).len()) == spec_history_json(h)
        },
    ensures
        r matches Some((hv, p2)) ==> pos < p2 <= v.len() && v@.subrange(pos as int, p2 as int)
            =~= spec_history_json(history_view(hv@)),
        expect@ matches Some(h) ==> (r matches Some((hv, p2)) && history_view(hv@) =~= h && p2
            == pos + spec_history_json(h).len()),
{
    proof {
        lemma_format_lits();
        if let Some(h) = expect@ {
            if h.len() == 0 {
                assert(v@.subrange(pos as int, pos + 2)[0] == '[');
                assert(v@.subrange(pos as int, pos + 2)[1] == ']');
            } else {
                assert(spec_history_json(h) =~= "[\n"@ + (spec_history_items(h) + "\n    ]"@));
                lemma_slice_head(v@, pos as int, "[\n"@, spec_history_items(h) + "\n    ]"@);
                assert(v@[pos as int] == "[\n"@[0]);
                assert(v@[pos as int + 1] == "[\n"@[1]);
            }
            assert(v@.subrange(pos as int, pos as int + 1) =~= "["@);
        }
    }
    let p1 = match parse_lit(v, pos, "[") {
        Some(p) => p,
        None => {
            return None;
        },
    };
    if p1 >= v.len() {
        proof {
            if let Some(h) = expect@ {
                assert(spec_history_json(h).len() >= 2);
            }
        }
        return None;
    }
    let c0 = v[p1];
    if c0 == ']' {
        let out: Vec<HistoryEntry> = Vec::new();
        proof {
            if let Some(h) = expect@ {
                if h.len() >= 1 {
                    assert(v@[p1 as int] == '\n');
                    assert(false);
                }
                assert(history_view(out@) =~= h);
            }
            assert(history_view(out@) =~= Seq::<EntryModel>::empty());
            assert(v@.subrange(pos as int, p1 as int + 1) =~= "[]"@);
        }
        return Some((out, p1 + 1));
    }
    if c0 != '\n' {
        proof {
            if let Some(h) = expect@ {
                if h.len() == 0 {
                    assert(v@[p1 as int] == ']');
                }
                assert(false);
            }
        }
        return None;
    }
    proof {
        if let Some(h) = expect@ {
            if h.len() == 0 {
                assert(v@[p1 as int] == ']');
                assert(false);
            }
            assert(h.skip(0) =~= h);
        }
    }
    let items_start = p1 + 1;
    let mut out: Vec<HistoryEntry> = Vec::new();
    let mut cursor: usize = items_start;
    let ghost endpos: int = match expect@ {
        Some(h) => pos + spec_history_json(h).len() - 6,
        None => 0,
    };
    proof {
        if let Some(h) = expect@ {
            lemma_slice_head(v@, pos + 2, spec_history_items(h), "\n    ]"@);
            assert(v@.subrange(endpos, pos + spec_history_json(h).len()) =~= "\n    ]"@);
        }
        assert(history_view(out@) =~= Seq::<EntryModel>::empty());
    }
    loop
        invariant
            pos + 2 == items_start,
            items_start <= cursor <= v.len(),
            v@[pos as int] == '[',
            v@[pos as int + 1] == '\n',
            out@.len() == 0 ==> cursor == items_start,
            out@.len() >= 1 ==> v@.subrange(items_start as int, cursor as int)
                =~= spec_history_items(history_view(out@)) + ",\n"@,
            expect@ matches Some(h) ==> {
                &&& h.len() >= 1
                &&& history_ts_ok(h)
                &&& out@.len() < h.len()
                &&& history_view(out@) =~= h.take(out@.len() as int)
                &&& endpos == pos + spec_history_json(h).len() - 6
                &&& pos + spec_history_json(h).len() <= v.len()
                &&& v@.subrange(endpos, pos + spec_history_json(h).len()) == "\n    ]"@
                &&& cursor + spec_history_items(h.skip(out@.len() as int)).len() == endpos
                &&& v@.subrange(cursor as int, endpos) == spec_history_items(
                    h.skip(out@.len() as int),
                )
            },
        decreases v.len() - cursor,
    {
        let ghost j = out@.len() as int;
        proof {
            lemma_format_lits();
            if let Some(h) = expect@ {
                let rest = h.skip(j);
                assert(rest.len() >= 1);
                assert(rest[0] == h[j]);
                lemma_history_items_front(rest);
                if rest.len() == 1 {
                    assert(spec_history_items(rest) =~= spec_entry_json(h[j]));
                } else {
                    assert(spec_history_items(rest) =~= spec_entry_json(h[j]) + (",\n"@
                        + spec_history_items(rest.skip(1))));
                    lemma_slice_head(
                        v@,
                        cursor as int,
                        spec_entry_json(h[j]),
                        ",\n"@ + spec_history_items(rest.skip(1)),
                    );
                }
                assert(entry_ts_ok(h[j]));
            }
        }
        let ghost ee: Option<EntryModel> = match expect@ {
            Some(h) => Some(h[out@.len() as int]),
            None => None,
        };
        let (entry, p2) = match parse_entry(v, cursor, Ghost(ee)) {
            Some(x) => x,
            None => {
                return None;
            },
        };
        if p2 >= v.len() {
            proof {
                if let Some(h) = expect@ {
                    assert(p2 <= endpos);
                    assert(endpos < v.len());
                    assert(false);
                }
            }
            return None;
        }
        let c = v[p2];
        proof {
            if let Some(h) = expect@ {
                let rest = h.skip(j);
                if rest.len() == 1 {
                    assert(p2 == endpos);
                    assert(v@.subrange(endpos, pos + spec_history_json(h).len())[0] == '\n');
                    assert(v@[p2 as int] == '\n');
                } else {
                    assert(v@.subrange(cursor as int, endpos)[p2 - cursor] == (spec_entry_json(
                        h[j],
                    ) + (",\n"@ + spec_history_items(rest.skip(1))))[p2 - cursor]);
                    assert(v@[p2 as int] == ',');
                }
            }
        }
        let ghost prev = out@;
        let ghost consumed_entry = v@.subrange(cursor as int, p2 as int);
        if c == '\n' {
            out.push(entry);
            let p3 = match parse_lit(v, p2, "\n    ]") {
                Some(p) => p,
                None => {
                    proof {
                        if let Some(h) = expect@ {
                            let rest = h.skip(j);
                            if rest.len() >= 2 {
                                assert(false);
                            }
                            assert(p2 == endpos);
                            assert(false);
                        }
                    }
                    return None;
                },
            };
            proof {
                assert(out@ =~= prev.push(entry));
                assert(history_view(out@).drop_last() =~= history_view(prev));
                assert(history_view(out@).last() == entry@);
                if prev.len() == 0 {
                    assert(spec_history_items(history_view(out@)) =~= spec_entry_json(entry@));
                    assert(v@.subrange(items_start as int, p2 as int) =~= spec_history_items(
                        history_view(out@),
                    ));
                } else {
                    assert(spec_history_items(history_view(out@)) =~= spec_history_items(
                        history_view(prev),
                    ) + ",\n"@ + spec_entry_json(entry@));
                    lemma_subrange_glue(v@, items_start as int, cursor as int, p2 as int);
                    assert(v@.subrange(items_start as int, p2 as int) =~= spec_history_items(
                        history_view(out@),
                    ));
                }
                assert(v@.subrange(pos as int, pos as int + 2) =~= "[\n"@);
                lemma_subrange_glue(v@, pos as int, items_start as int, p2 as int);
                lemma_subrange_glue(v@, pos as int, p2 as int, p3 as int);
                assert(history_view(out@).len() >= 1);
                assert(v@.subrange(pos as int, p3 as int) =~= spec_history_json(
                    history_view(out@),
                ));
                if let Some(h) = expect@ {
                    let rest = h.skip(j);
                    if rest.len() >= 2 {
                        assert(false);
                    }
                    assert(h.take(j + 1) =~= h);
                    assert forall|m: int| 0 <= m < j + 1 implies history_view(out@)[m] == h.take(
                        j + 1,
                    )[m] by {
                        if m < j {
                            assert(history_view(prev)[m] == h.take(j)[m]);
                        }
                    }
                    assert(history_view(out@) =~= h.take(j + 1));
                }
            }
            return Some((out, p3));
        }
        if c == ',' {
            let p3 = match parse_lit(v, p2, ",\n") {
                Some(p) => p,
                None => {
                    proof {
                        if let Some(h) = expect@ {
                            let rest = h.skip(j);
                            if rest.len() == 1 {
                                assert(v@[p2 as int] == '\n');
                                assert(false);
                            }
                            lemma_slice_head(
                                v@,
                                p2 as int,
                                ",\n"@,
                                spec_history_items(rest.skip(1)),
                            );
                            assert(false);
                        }
                    }
                    return None;
                },
            };
            out.push(entry);
            proof {
                assert(out@ =~= prev.push(entry));
                assert(history_view(out@).drop_last() =~= history_view(prev));
                assert(history_view(out@).last() == entry@);
                if prev.len() == 0 {
                    assert(spec_history_items(history_view(out@)) =~= spec_entry_json(entry@));
                } else {
                    assert(spec_history_items(history_view(out@)) =~= spec_history_items(
                        history_view(prev),
                    ) + ",\n"@ + spec_entry_json(entry@));
                    lemma_subrange_glue(v@, items_start as int, cursor as int, p2 as int);
                }
                lemma_subrange_glue(v@, items_start as int, p2 as int, p3 as int);
                assert(v@.subrange(items_start as int, p3 as int) =~= spec_history_items(
                    history_view(out@),
                ) + ",\n"@);
                if let Some(h) = expect@ {
                    let rest = h.skip(j);
                    if rest.len() == 1 {
                        assert(false);
                    }
                    assert forall|m: int| 0 <= m < j + 1 implies history_view(out@)[m] == h.take(
                        j + 1,
                    )[m] by {
                        if m < j {
                            assert(history_view(prev)[m] == h.take(j)[m]);
                        }
                    }
                    assert(history_view(out@) =~= h.take(j + 1));
                    assert(rest.skip(1) =~= h.skip(j + 1));
                    lemma_slice_head(v@, p2 as int, ",\n"@, spec_history_items(rest.skip(1)));
                    assert(v@.subrange(p3 as int, endpos) =~= spec_history_items(h.skip(j + 1)));
                }
            }
            cursor = p3;
        } else {
            proof {
                if expect@ is Some {
                    assert(false);
                }
            }
            return None;
        }
    }
}

/// Consumes one persisted container at `pos`. Wherever the canonical
/// rendering of a container stands there, that container comes back; and
/// whatever comes back renders to exactly the consumed characters.
fn parse_container(v: &Vec<char>, pos: usize, expect: Ghost<Option<ContainerModel>>) -> (r: Option<
    (StatefulContainer, usize),
>)
    requires
        pos <= v.len(),
        expect@ matches Some(c) ==> {
            &&& history_ts_ok(c.history)
            &&& pos + spec_container_json(c).len() <= v.len()
            &&& v@.subrange(pos as int, pos + spec_container_json(c).len()) == spec_container_json(
                c,
            )
        },
    ensures
        r matches Some((sc, p2)) ==> pos < p2 <= v.len() && v@.subrange(pos as int, p2 as int)
            =~= spec_container_json(sc@),
        expect@ matches Some(c) ==> (r matches Some((sc, p2)) && sc@ == c && p2 == pos
            + spec_container_json(c).len()),
{
    proof {
        lemma_format_lits();
        if let Some(c) = expect@ {
            let b1 = "  {\n    \"name\": "@;
            let q1 = spec_quoted(c.name);
            let b2 = ",\n    \"image\": "@;
            let q2 = spec_quoted(c.image);
            let b3 = ",\n    \"history\": "@;
            let hj = spec_history_json(c.history);
            let b4 = "\n  }"@;
            assert(spec_container_json(c) =~= b1 + (q1 + (b2 + (q2 + (b3 + (hj + b4))))));
            lemma_slice_head(v@, pos as int, b1, q1 + (b2 + (q2 + (b3 + (hj + b4)))));
            lemma_slice_head(v@, pos + b1.len(), q1, b2 + (q2 + (b3 + (hj + b4))));
            lemma_slice_head(v@, pos + b1.len() + q1.len(), b2, q2 + (b3 + (hj + b4)));
            lemma_slice_head(v@, pos + b1.len() + q1.len() + b2.len(), q2, b3 + (hj + b4));
            lemma_slice_head(
                v@,
                pos + b1.len() + q1.len() + b2.len() + q2.len(),
                b3,
                hj + b4,
            );
            lemma_slice_head(
                v@,
                pos + b1.len() + q1.len() + b2.len() + q2.len() + b3.len(),
                hj,
                b4,
            );
        }
    }
    let p1 = match parse_lit(v, pos, "  {\n    \"name\": ") {
        Some(p) => p,
        None => {
            return None;
        },
    };
    let ghost ename: Option<Seq<char>> = match expect@ {
        Some(c) => Some(c.name),
        None => None,
    };
    let (name, p2) = match parse_quoted(v, p1, Ghost(ename)) {
        Some(x) => x,
        None => {
            return None;
        },
    };
    let p3 = match parse_lit(v, p2, ",\n    \"image\": ") {
        Some(p) => p,
        None => {
            return None;
        },
    };
    let ghost eimg: Option<Seq<char>> = match expect@ {
        Some(c) => Some(c.image),
        None => None,
    };
    let (image, p4) = match parse_quoted(v, p3, Ghost(eimg)) {
        Some(x) => x,
        None => {
            return None;
        },
    };
    let p5 = match parse_lit(v, p4, ",\n    \"history\": ") {
        Some(p) => p,
        None => {
            return None;
        },
    };
    let ghost ehist: Option<Seq<EntryModel>> = match expect@ {
        Some(c) => Some(c.history),
        None => None,
    };
    let (history, p6) = match parse_history(v, p5, Ghost(ehist)) {
        Some(x) => x,
        None => {
            return None;
        },
    };
    let p7 = match parse_lit(v, p6, "\n  }") {
        Some(p) => p,
        None => {
            return None;
        },
    };
    let container = StatefulContainer { name, image, history };
    proof {
        if let Some(c) = expect@ {
            assert(history_view(container.history@) =~= c.history);
            assert(container@ == c);
        }
        lemma_subrange_glue(v@, pos as int, p1 as int, p2 as int);
        lemma_subrange_glue(v@, pos as int, p2 as int, p3 as int);
        lemma_subrange_glue(v@, pos as int, p3 as int, p4 as int);
        lemma_subrange_glue(v@, pos as int, p4 as int, p5 as int);
        lemma_subrange_glue(v@, pos as int, p5 as int, p6 as int);
        lemma_subrange_glue(v@, pos as int, p6 as int, p7 as int);
        assert(v@.subrange(pos as int, p7 as int) =~= spec_container_json(container@));
    }
    Some((container, p7))
}

/// The comma-separated registry items, read from the front.
proof fn lemma_registry_items_front(rs: Seq<ContainerModel>)
    requires
        rs.len() >= 1,
    ensures
        spec_registry_items(rs) =~= spec_container_json(rs[0]) + (if rs.len() == 1 {
            Seq::<char>::empty()
        } else {
            ",\n"@ + spec_registry_items(rs.skip(1))
        }),
    decreases rs.len(),
{
    if rs.len() == 1 {
        assert(rs.last() == rs[0]);
    } else {
        lemma_registry_items_front(rs.drop_last());
        assert(rs.drop_last()[0] == rs[0]);
        if rs.len() == 2 {
            assert(rs.skip(1).len() == 1);
            assert(rs.skip(1).last() == rs.last());
        } else {
            assert(rs.drop_last().skip(1) =~= rs.skip(1).drop_last());
            assert(rs.skip(1).len() >= 2);
            assert(rs.skip(1).last() == rs.last());
            assert(spec_registry_items(rs.skip(1)) == spec_registry_items(rs.skip(1).drop_last())
                + ",\n"@ + spec_container_json(rs.skip(1).last()));
        }
    }
}

/// Every timestamp in the registry fits the stored integer type.
pub open spec fn registry_ts_ok(rs: Seq<ContainerModel>) -> bool {
    forall|i: int| 0 <= i < rs.len() ==> history_ts_ok(#[trigger] rs[i].history)
}

/// Consumes the whole persisted registry. Wherever the text is the
/// canonical rendering of a registry, that registry comes back, in order;
/// and whatever comes back renders to exactly the whole text read.
#[verifier::rlimit(100)]
fn parse_registry_chars(v: &Vec<char>, expect: Ghost<Option<Seq<ContainerModel>>>) -> (r: Option<
    Registry,
>)
    requires
        expect@ matches Some(rs) ==> {
            &&& registry_ts_ok(rs)
            &&& v@ == spec_registry_json(rs)
        },
    ensures
        r matches Some(reg) ==> v@ =~= spec_registry_json(reg@),
        expect@ matches Some(rs) ==> (r matches Some(reg) && reg@ =~= rs),
{
    proof {
        lemma_format_lits();
        if let Some(rs) = expect@ {
            assert(v@.subrange(0, v@.len() as int) =~= v@);
            if rs.len() == 0 {
                assert(v@.subrange(0, 2)[0] == '[');
                assert(v@.subrange(0, 2)[1] == ']');
            } else {
                assert(spec_registry_json(rs) =~= "[\n"@ + (spec_registry_items(rs) + "\n]"@));
                lemma_slice_head(v@, 0, "[\n"@, spec_registry_items(rs) + "\n]"@);
                assert(v@[0] == "[\n"@[0]);
                assert(v@[1] == "[\n"@[1]);
            }
            assert(v@.subrange(0, 1) =~= "["@);
        }
    }
    let p1 = match parse_lit(v, 0, "[") {
        Some(p) => p,
        None => {
            return None;
        },
    };
    if p1 >= v.len() {
        proof {
            if let Some(rs) = expect@ {
                assert(spec_registry_json(rs).len() >= 2);
            }
        }
        return None;
    }
    let c0 = v[p1];
    if c0 == ']' {
        if p1 + 1 == v.len() {
            let out: Vec<StatefulContainer> = Vec::new();
            proof {
                if let Some(rs) = expect@ {
                    if rs.len() >= 1 {
                        assert(v@[p1 as int] == '\n');
                        assert(false);
                    }
                    assert(containers_view(out@) =~= rs);
                }
                assert(containers_view(out@) =~= Seq::<ContainerModel>::empty());
                assert(v@ =~= "[]"@);
            }
            return Some(Registry { containers: out });
        }
        proof {
            if let Some(rs) = expect@ {
                if rs.len() == 0 {
                    assert(v@.len() == 2);
                    assert(false);
                }
                assert(v@[p1 as int] == '\n');
                assert(false);
            }
        }
        return None;
    }
    if c0 != '\n' {
        proof {
            if let Some(rs) = expect@ {
                if rs.len() == 0 {
                    assert(v@[p1 as int] == ']');
                }
                assert(false);
            }
        }
        return None;
    }
    proof {
        if let Some(rs) = expect@ {
            if rs.len() == 0 {
                assert(v@[p1 as int] == ']');
                assert(false);
            }
            assert(rs.skip(0) =~= rs);
        }
    }
    let items_start = p1 + 1;
    let mut out: Vec<StatefulContainer> = Vec::new();
    let mut cursor: usize = items_start;
    let ghost endpos: int = v@.len() - 2;
    proof {
        if let Some(rs) = expect@ {
            lemma_slice_head(v@, 2, spec_registry_items(rs), "\n]"@);
            assert(v@.subrange(endpos, v@.len() as int) =~= "\n]"@);
        }
        assert(containers_view(out@) =~= Seq::<ContainerModel>::empty());
    }
    loop
        invariant
            items_start == 2,
            2 <= cursor <= v.len(),
            v@[0] == '[',
            v@[1] == '\n',
            out@.len() == 0 ==> cursor == items_start,
            out@.len() >= 1 ==> v@.subrange(items_start as int, cursor as int)
                =~= spec_registry_items(containers_view(out@)) + ",\n"@,
            expect@ matches Some(rs) ==> {
                &&& rs.len() >= 1
                &&& registry_ts_ok(rs)
                &&& out@.len() < rs.len()
                &&& containers_view(out@) =~= rs.take(out@.len() as int)
                &&& endpos == v@.len() - 2
                &&& v@.len() == spec_registry_json(rs).len()
                &&& v@.subrange(endpos, v@.len() as int) == "\n]"@
                &&& cursor + spec_registry_items(rs.skip(out@.len() as int)).len() == endpos
                &&& v@.subrange(cursor as int, endpos) == spec_registry_items(
                    rs.skip(out@.len() as int),
                )
            },
        decreases v.len() - cursor,
    {
        let ghost j = out@.len() as int;
        proof {
            lemma_format_lits();
            if let Some(rs) = expect@ {
                let rest = rs.skip(j);
                assert(rest.len() >= 1);
                assert(rest[0] == rs[j]);
                lemma_registry_items_front(rest);
                if rest.len() == 1 {
                    assert(spec_registry_items(rest) =~= spec_container_json(rs[j]));
                } else {
                    assert(spec_registry_items(rest) =~= spec_container_json(rs[j]) + (",\n"@
                        + spec_registry_items(rest.skip(1))));
                    lemma_slice_head(
                        v@,
                        cursor as int,
                        spec_container_json(rs[j]),
                        ",\n"@ + spec_registry_items(rest.skip(1)),
                    );
                }
                assert(history_ts_ok(rs[j].history));
            }
        }
        let ghost ec: Option<ContainerModel> = match expect@ {
            Some(rs) => Some(rs[out@.len() as int]),
            None => None,
        };
        let (container, p2) = match parse_container(v, cursor, Ghost(ec)) {
            Some(x) => x,
            None => {
                return None;
            },
        };
        if p2 >= v.len() {
            proof {
                if let Some(rs) = expect@ {
                    assert(p2 <= endpos);
                    assert(endpos < v.len());
                    assert(false);
                }
            }
            return None;
        }
        let c = v[p2];
        proof {
            if let Some(rs) = expect@ {
                let rest = rs.skip(j);
                if rest.len() == 1 {
                    assert(p2 == endpos);
                    assert(v@.subrange(endpos, v@.len() as int)[0] == '\n');
                    assert(v@[p2 as int] == '\n');
                } else {
                    assert(v@.subrange(cursor as int, endpos)[p2 - cursor] == (spec_container_json(
                        rs[j],
                    ) + (",\n"@ + spec_registry_items(rest.skip(1))))[p2 - cursor]);
                    assert(v@[p2 as int] == ',');
                }
            }
        }
        let ghost prev = out@;
        if c == '\n' {
            out.push(container);
            let p3 = match parse_lit(v, p2, "\n]") {
                Some(p) => p,
                None => {
                    proof {
                        if let Some(rs) = expect@ {
                            let rest = rs.skip(j);
                            if rest.len() >= 2 {
                                assert(false);
                            }
                            assert(p2 == endpos);
                            assert(false);
                        }
                    }
                    return None;
                },
            };
            if p3 != v.len() {
                proof {
                    if let Some(rs) = expect@ {
                        let rest = rs.skip(j);
                        if rest.len() >= 2 {
                            assert(false);
                        }
                        assert(p2 == endpos);
                        assert(false);
                    }
                }
                return None;
            }
            proof {
                assert(out@ =~= prev.push(container));
                assert(containers_view(out@).drop_last() =~= containers_view(prev));
                assert(containers_view(out@).last() == container@);
                if prev.len() == 0 {
                    assert(spec_registry_items(containers_view(out@)) =~= spec_container_json(
                        container@,
                    ));
                    assert(v@.subrange(items_start as int, p2 as int) =~= spec_registry_items(
                        containers_view(out@),
                    ));
                } else {
                    assert(spec_registry_items(containers_view(out@)) =~= spec_registry_items(
                        containers_view(prev),
                    ) + ",\n"@ + spec_container_json(container@));
                    lemma_subrange_glue(v@, items_start as int, cursor as int, p2 as int);
                    assert(v@.subrange(items_start as int, p2 as int) =~= spec_registry_items(
                        containers_view(out@),
                    ));
                }
                assert(v@.subrange(0, 2) =~= "[\n"@);
                lemma_subrange_glue(v@, 0, items_start as int, p2 as int);
                lemma_subrange_glue(v@, 0, p2 as int, p3 as int);
                assert(containers_view(out@).len() >= 1);
                assert(v@.subrange(0, p3 as int) =~= v@);
                assert(v@ =~= spec_registry_json(containers_view(out@)));
                if let Some(rs) = expect@ {
                    let rest = rs.skip(j);
                    if rest.len() >= 2 {
                        assert(false);
                    }
                    assert(rs.take(j + 1) =~= rs);
                    assert forall|m: int| 0 <= m < j + 1 implies containers_view(out@)[m]
                        == rs.take(j + 1)[m] by {
                        if m < j {
                            assert(containers_view(prev)[m] == rs.take(j)[m]);
                        }
                    }
                    assert(containers_view(out@) =~= rs.take(j + 1));
                }
            }
            return Some(Registry { containers: out });
        }
        if c == ',' {
            let p3 = match parse_lit(v, p2, ",\n") {
                Some(p) => p,
                None => {
                    proof {
                        if let Some(rs) = expect@ {
                            let rest = rs.skip(j);
                            if rest.len() == 1 {
                                assert(v@[p2 as int] == '\n');
                                assert(false);
                            }
                            lemma_slice_head(
                                v@,
                                p2 as int,
                                ",\n"@,
                                spec_registry_items(rest.skip(1)),
                            );
                            assert(false);
                        }
                    }
                    return None;
                },
            };
            out.push(container);
            proof {
                assert(out@ =~= prev.push(container));
                assert(containers_view(out@).drop_last() =~= containers_view(prev));
                assert(containers_view(out@).last() == container@);
                if prev.len() == 0 {
                    assert(spec_registry_items(containers_view(out@)) =~= spec_container_json(
                        container@,
                    ));
                } else {
                    assert(spec_registry_items(containers_view(out@)) =~= spec_registry_items(
                        containers_view(prev),
                    ) + ",\n"@ + spec_container_json(container@));
                    lemma_subrange_glue(v@, items_start as int, cursor as int, p2 as int);
                }
                lemma_subrange_glue(v@, items_start as int, p2 as int, p3 as int);
                assert(v@.subrange(items_start as int, p3 as int) =~= spec_registry_items(
                    containers_view(out@),
                ) + ",\n"@);
                if let Some(rs) = expect@ {
                    let rest = rs.skip(j);
                    if rest.len() == 1 {
                        assert(false);
                    }
                    assert forall|m: int| 0 <= m < j + 1 implies containers_view(out@)[m]
                        == rs.take(j + 1)[m] by {
                        if m < j {
                            assert(containers_view(prev)[m] == rs.take(j)[m]);
                        }
                    }
                    assert(containers_view(out@) =~= rs.take(j + 1));
                    assert(rest.skip(1) =~= rs.skip(j + 1));
                    lemma_slice_head(v@, p2 as int, ",\n"@, spec_registry_items(rest.skip(1)));
                    assert(v@.subrange(p3 as int, endpos) =~= spec_registry_items(rs.skip(j + 1)));
                }
            }
            cursor = p3;
        } else {
            proof {
                if expect@ is Some {
                    assert(false);
                }
            }
            return None;
        }
    }
}

/// Reads a persisted registry text. On every canonical rendering it
/// succeeds; and whatever it accepts renders back to exactly the text read,
/// so no other text can come back as a registry.
pub fn parse_registry(s: &str) -> (r: Option<Registry>)
    ensures
        r matches Some(reg) ==> s@ == spec_registry_json(reg@),
        (exists|rs: Seq<ContainerModel>|
            s@ == spec_registry_json(rs) && registry_ts_ok(rs)) ==> r is Some,
{
    let v = to_chars(s);
    let ghost expected: Option<Seq<ContainerModel>> = if exists|rs: Seq<ContainerModel>|
        s@ == spec_registry_json(rs) && registry_ts_ok(rs) {
        Some(
            choose|rs: Seq<ContainerModel>| s@ == spec_registry_json(rs) && registry_ts_ok(rs),
        )
    } else {
        None
    };
    match parse_registry_chars(&v, Ghost(expected)) {
        Some(reg) => Some(reg),
        None => None,
    }
}

/// The registry's timestamps are stored machine integers, so they always
/// fit the persisted integer type.
proof fn lemma_registry_ts_ok(reg: &Registry)
    ensures
        registry_ts_ok(reg@),
{
    assert forall|i: int| 0 <= i < reg@.len() implies history_ts_ok(#[trigger] reg@[i].history) by {
        let c = reg.containers@[i];
        assert(reg@[i] == c@);
        assert forall|j: int|
            0 <= j < c@.history.len() implies entry_ts_ok(#[trigger] c@.history[j]) by {
            assert(c@.history[j] == c.history@[j]@);
        }
    }
}

/// The persistence round trip: parsing the rendered text of any registry
/// reproduces the identical sequence of containers, history order kept.
pub fn reload(reg: &Registry) -> (r: Option<Registry>)
    ensures
        r matches Some(reg2) && reg2@ =~= reg@,
{
    let text = encode_registry(reg);
    let v = to_chars(text.as_str());
    proof {
        lemma_registry_ts_ok(reg);
    }
    match parse_registry_chars(&v, Ghost(Some(reg@))) {
        Some(reg2) => Some(reg2),
        None => {
            proof {
                assert(false);
            }
            None
        },
    }
}

} // verus!
