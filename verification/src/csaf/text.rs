use vstd::prelude::*;
use vstd::std_specs::iter::IteratorSpec;

verus! {

/// The character that stands for one decimal digit.
pub open spec fn digit_char(d: nat) -> char {
    if d == 0 {
        '0'
    } else if d == 1 {
        '1'
    } else if d == 2 {
        '2'
    } else if d == 3 {
        '3'
    } else if d == 4 {
        '4'
    } else if d == 5 {
        '5'
    } else if d == 6 {
        '6'
    } else if d == 7 {
        '7'
    } else if d == 8 {
        '8'
    } else {
        '9'
    }
}

/// The decimal numeral of `n`, without sign or leading zeros.
pub open spec fn decimal(n: nat) -> Seq<char>
    decreases n,
{
    if n < 10 {
        seq![digit_char(n)]
    } else {
        decimal(n / 10).push(digit_char(n % 10))
    }
}

/// `parts` written one after another with `sep` between neighbours.
pub open spec fn join(parts: Seq<Seq<char>>, sep: Seq<char>) -> Seq<char>
    decreases parts.len(),
{
    if parts.len() == 0 {
        Seq::empty()
    } else if parts.len() == 1 {
        parts[0]
    } else {
        join(parts.drop_last(), sep) + sep + parts.last()
    }
}

/// The views of a sequence of strings, in the same order.
pub open spec fn texts(v: Seq<String>) -> Seq<Seq<char>> {
    Seq::new(v.len(), |i: int| v[i]@)
}

/// Strict lexicographic order of two texts by the code points of their characters.
pub open spec fn lex_lt(a: Seq<char>, b: Seq<char>) -> bool
    decreases a.len(),
{
    if b.len() == 0 {
        false
    } else if a.len() == 0 {
        true
    } else if a[0] != b[0] {
        (a[0] as u32) < (b[0] as u32)
    } else {
        lex_lt(a.drop_first(), b.drop_first())
    }
}

fn digit_str(d: usize) -> (r: &'static str)
    requires
        d < 10,
    ensures
        r@ == seq![digit_char(d as nat)],
{
    proof {
        reveal_strlit("0");
        reveal_strlit("1");
        reveal_strlit("2");
        reveal_strlit("3");
        reveal_strlit("4");
        reveal_strlit("5");
        reveal_strlit("6");
        reveal_strlit("7");
        reveal_strlit("8");
        reveal_strlit("9");
    }
    let r = if d == 0 {
        "0"
    } else if d == 1 {
        "1"
    } else if d == 2 {
        "2"
    } else if d == 3 {
        "3"
    } else if d == 4 {
        "4"
    } else if d == 5 {
        "5"
    } else if d == 6 {
        "6"
    } else if d == 7 {
        "7"
    } else if d == 8 {
        "8"
    } else {
        "9"
    };
    assert(r@ =~= seq![digit_char(d as nat)]);
    r
}

/// Renders `n` as a decimal numeral.
pub fn decimal_string(n: usize) -> (r: String)
    ensures
        r@ == decimal(n as nat),
    decreases n,
{
    if n < 10 {
        String::from_str(digit_str(n))
    } else {
        let mut s = decimal_string(n / 10);
        s.append(digit_str(n % 10));
        assert(s@ =~= decimal(n as nat));
        s
    }
}

/// Joins `parts` with `sep` between neighbours.
pub fn join_strings(parts: &Vec<String>, sep: &str) -> (r: String)
    ensures
        r@ == join(texts(parts@), sep@),
{
    let mut out = String::new();
    let mut i: usize = 0;
    while i < parts.len()
        invariant
            0 <= i <= parts.len(),
            out@ == join(texts(parts@).take(i as int), sep@),
        decreases parts.len() - i,
    {
        proof {
            let all = texts(parts@);
            assert(all.take(i + 1).drop_last() =~= all.take(i as int));
            assert(all.take(i + 1).last() == parts@[i as int]@);
        }
        if i > 0 {
            out.append(sep);
        }
        out.append(parts[i].as_str());
        proof {
            let all = texts(parts@);
            if i == 0 {
                assert(out@ =~= all.take(1)[0]);
            }
        }
        i += 1;
    }
    proof {
        assert(texts(parts@).take(parts.len() as int) =~= texts(parts@));
    }
    out
}

/// Whether `a` comes strictly before `b` in lexicographic order.
pub fn string_lt(a: &String, b: &String) -> (r: bool)
    ensures
        r == lex_lt(a@, b@),
{
    let mut ia = a.as_str().chars();
    let mut ib = b.as_str().chars();
    loop
        invariant
            ia.obeys_prophetic_iter_laws(),
            ib.obeys_prophetic_iter_laws(),
            ia.decrease() is Some,
            lex_lt(a@, b@) == lex_lt(ia.remaining(), ib.remaining()),
        decreases ia.decrease()->0,
    {
        let ca = ia.next();
        let cb = ib.next();
        match (ca, cb) {
            (_, None) => {
                return false;
            },
            (None, Some(_)) => {
                return true;
            },
            (Some(x), Some(y)) => {
                if x != y {
                    return (x as u32) < (y as u32);
                }
            },
        }
    }
}

/// The text that formatting a string with `{:?}` gives: the string between double quotes,
/// with the characters escaped that Rust escapes in a string literal.
pub uninterp spec fn debug_text(text: Seq<char>) -> Seq<char>;

/// Formats a string with `{:?}`, that is with `core::fmt::Debug` for `str`. The result is the
/// named text: nothing more is claimed than that equal strings are formatted alike.
#[verifier::external_body]
fn debug_string(text: &str) -> (r: String)
    ensures
        r@ == debug_text(text@),
{
    format!("{:?}", text)
}

/// The items as a list: between square brackets, with a comma and a space between neighbours.
pub open spec fn bracketed(items: Seq<Seq<char>>) -> Seq<char> {
    "["@ + join(items, ", "@) + "]"@
}

/// The items as a set: between braces, with a comma and a space between neighbours.
pub open spec fn braced(items: Seq<Seq<char>>) -> Seq<char> {
    "{"@ + join(items, ", "@) + "}"@
}

/// The `{:?}` texts of the items, in the same order.
pub open spec fn debug_texts(items: Seq<Seq<char>>) -> Seq<Seq<char>> {
    Seq::new(items.len(), |i: int| debug_text(items[i]))
}

/// Writes the items as a list between square brackets.
pub fn bracketed_string(items: &Vec<String>) -> (r: String)
    ensures
        r@ == bracketed(texts(items@)),
{
    let mut out = String::from_str("[");
    out.append(join_strings(items, ", ").as_str());
    out.append("]");
    out
}

/// Writes the items as a set between braces.
pub fn braced_string(items: &Vec<String>) -> (r: String)
    ensures
        r@ == braced(texts(items@)),
{
    let mut out = String::from_str("{");
    out.append(join_strings(items, ", ").as_str());
    out.append("}");
    out
}

/// Writes the IDs as a list of quoted strings, as `{:?}` writes a list of strings.
pub fn debug_list_string(ids: &Vec<String>) -> (r: String)
    ensures
        r@ == bracketed(debug_texts(texts(ids@))),
{
    bracketed_string(&debug_strings(ids))
}

/// Writes the IDs as a set of quoted strings, as `{:?}` writes a set of strings.
pub fn debug_set_string(ids: &Vec<String>) -> (r: String)
    ensures
        r@ == braced(debug_texts(texts(ids@))),
{
    braced_string(&debug_strings(ids))
}

/// Formats each of the IDs with `{:?}`.
pub fn debug_strings(ids: &Vec<String>) -> (quoted: Vec<String>)
    ensures
        texts(quoted@) == debug_texts(texts(ids@)),
{
    let mut quoted: Vec<String> = Vec::new();
    let mut i: usize = 0;
    while i < ids.len()
        invariant
            0 <= i <= ids.len(),
            texts(quoted@) == debug_texts(texts(ids@)).take(i as int),
        decreases ids.len() - i,
    {
        let ghost before = texts(quoted@);
        quoted.push(debug_string(ids[i].as_str()));
        proof {
            let all = debug_texts(texts(ids@));
            assert(texts(quoted@) =~= before.push(all[i as int]));
            assert(all.take(i + 1) =~= all.take(i as int).push(all[i as int]));
        }
        i += 1;
    }
    proof {
        let all = debug_texts(texts(ids@));
        assert(all.take(ids.len() as int) =~= all);
    }
    quoted
}

/// Whether the two texts are the same.
pub fn same_text(a: &str, b: &str) -> (r: bool)
    ensures
        r == (a@ == b@),
{
    String::from_str(a) == String::from_str(b)
}

/// Whether `id` is among `ids`.
pub fn contains_id(ids: &Vec<String>, id: &String) -> (r: bool)
    ensures
        r == texts(ids@).contains(id@),
{
    let mut i: usize = 0;
    while i < ids.len()
        invariant
            0 <= i <= ids.len(),
            forall|j: int| 0 <= j < i ==> texts(ids@)[j] != id@,
        decreases ids.len() - i,
    {
        if ids[i] == *id {
            assert(texts(ids@)[i as int] == id@);
            return true;
        }
        i += 1;
    }
    false
}

/// No text comes before itself.
pub proof fn lemma_lex_lt_irreflexive(a: Seq<char>)
    ensures
        !lex_lt(a, a),
    decreases a.len(),
{
    if a.len() > 0 {
        lemma_lex_lt_irreflexive(a.drop_first());
    }
}

/// Of two texts at most one comes before the other.
pub proof fn lemma_lex_lt_asymmetric(a: Seq<char>, b: Seq<char>)
    requires
        lex_lt(a, b),
    ensures
        !lex_lt(b, a),
    decreases a.len(),
{
    if a.len() > 0 && b.len() > 0 && a[0] == b[0] {
        lemma_lex_lt_asymmetric(a.drop_first(), b.drop_first());
    }
}

/// What comes before a text comes before all that the text comes before.
pub proof fn lemma_lex_lt_transitive(a: Seq<char>, b: Seq<char>, c: Seq<char>)
    requires
        lex_lt(a, b),
        lex_lt(b, c),
    ensures
        lex_lt(a, c),
    decreases a.len(),
{
    if a.len() > 0 && b.len() > 0 && c.len() > 0 && a[0] == b[0] && b[0] == c[0] {
        lemma_lex_lt_transitive(a.drop_first(), b.drop_first(), c.drop_first());
    }
}

/// Of two different texts one comes before the other.
pub proof fn lemma_lex_lt_total(a: Seq<char>, b: Seq<char>)
    ensures
        a == b || lex_lt(a, b) || lex_lt(b, a),
    decreases a.len(),
{
    if a.len() > 0 && b.len() > 0 {
        if a[0] == b[0] {
            lemma_lex_lt_total(a.drop_first(), b.drop_first());
            if a.drop_first() == b.drop_first() {
                assert(a =~= seq![a[0]] + a.drop_first());
                assert(b =~= seq![b[0]] + b.drop_first());
            }
        } else {
            vstd::utf8::char_u32_cast(a[0], a[0] as u32);
            vstd::utf8::char_u32_cast(b[0], b[0] as u32);
        }
    } else if a.len() == 0 && b.len() == 0 {
        assert(a =~= b);
    }
}

/// Whether the texts stand in strictly ascending lexicographic order, so that none occurs
/// twice.
pub open spec fn strictly_sorted(s: Seq<Seq<char>>) -> bool {
    forall|i: int, j: int| 0 <= i < j < s.len() ==> lex_lt(#[trigger] s[i], #[trigger] s[j])
}

/// A set of texts has at most one strictly sorted sequence.
pub proof fn lemma_sorted_unique(a: Seq<Seq<char>>, b: Seq<Seq<char>>)
    requires
        strictly_sorted(a),
        strictly_sorted(b),
        a.to_set() == b.to_set(),
    ensures
        a == b,
    decreases a.len(),
{
    if a.len() == 0 {
        if b.len() > 0 {
            assert(b.to_set().contains(b[0]));
            assert(a.contains(b[0]));
        }
        assert(a =~= b);
    } else {
        let x = a.last();
        assert(a[a.len() - 1] == x);
        assert(a.to_set().contains(x));
        assert(b.contains(x));
        let k = choose|k: int| 0 <= k < b.len() && b[k] == x;
        let y = b.last();
        assert(b[b.len() - 1] == y);
        assert(b.to_set().contains(y));
        assert(a.contains(y));
        let m = choose|m: int| 0 <= m < a.len() && a[m] == y;
        if k < b.len() - 1 {
            assert(lex_lt(b[k], b[b.len() - 1]));
            if m < a.len() - 1 {
                assert(lex_lt(a[m], a[a.len() - 1]));
                lemma_lex_lt_asymmetric(x, y);
            } else {
                lemma_lex_lt_irreflexive(x);
            }
        }
        assert(x == y);
        let a0 = a.drop_last();
        let b0 = b.drop_last();
        assert forall|i: int, j: int| 0 <= i < j < a0.len() implies lex_lt(
            #[trigger] a0[i],
            #[trigger] a0[j],
        ) by {
            assert(a0[i] == a[i] && a0[j] == a[j]);
        }
        assert forall|i: int, j: int| 0 <= i < j < b0.len() implies lex_lt(
            #[trigger] b0[i],
            #[trigger] b0[j],
        ) by {
            assert(b0[i] == b[i] && b0[j] == b[j]);
        }
        assert forall|v: Seq<char>| a0.to_set().contains(v) <==> b0.to_set().contains(v) by {
            if a0.contains(v) {
                let i = choose|i: int| 0 <= i < a0.len() && a0[i] == v;
                assert(a[i] == v);
                assert(lex_lt(a[i], a[a.len() - 1]));
                assert(a.to_set().contains(v));
                assert(b.contains(v));
                let j = choose|j: int| 0 <= j < b.len() && b[j] == v;
                if j == b.len() - 1 {
                    lemma_lex_lt_irreflexive(x);
                }
                assert(b0[j] == v);
            }
            if b0.contains(v) {
                let i = choose|i: int| 0 <= i < b0.len() && b0[i] == v;
                assert(b[i] == v);
                assert(lex_lt(b[i], b[b.len() - 1]));
                assert(b.to_set().contains(v));
                assert(a.contains(v));
                let j = choose|j: int| 0 <= j < a.len() && a[j] == v;
                if j == a.len() - 1 {
                    lemma_lex_lt_irreflexive(x);
                }
                assert(a0[j] == v);
            }
        }
        assert(a0.to_set() =~= b0.to_set());
        lemma_sorted_unique(a0, b0);
        assert(a =~= a0.push(x));
        assert(b =~= b0.push(y));
    }
}

/// The texts of a finite set in strictly ascending lexicographic order.
pub open spec fn sorted_ids(s: Set<Seq<char>>) -> Seq<Seq<char>> {
    choose|q: Seq<Seq<char>>| strictly_sorted(q) && q.to_set() == s
}

/// A strictly sorted sequence is the sorted sequence of its own set.
pub proof fn lemma_sorted_ids(q: Seq<Seq<char>>)
    requires
        strictly_sorted(q),
    ensures
        sorted_ids(q.to_set()) == q,
{
    lemma_sorted_unique(sorted_ids(q.to_set()), q);
}

/// A sorted sequence with one more text put in its place.
pub open spec fn sorted_insert(q: Seq<Seq<char>>, x: Seq<char>) -> Seq<Seq<char>>
    decreases q.len(),
{
    if q.len() == 0 {
        seq![x]
    } else if lex_lt(q.last(), x) {
        q.push(x)
    } else {
        sorted_insert(q.drop_last(), x).push(q.last())
    }
}

/// Putting a new text in its place keeps the sequence sorted and adds the text to its set.
pub proof fn lemma_sorted_insert(q: Seq<Seq<char>>, x: Seq<char>)
    requires
        strictly_sorted(q),
        !q.contains(x),
    ensures
        strictly_sorted(sorted_insert(q, x)),
        sorted_insert(q, x).to_set() == q.to_set().insert(x),
    decreases q.len(),
{
    let r = sorted_insert(q, x);
    if q.len() == 0 {
        assert(r[0] == x);
        assert forall|v: Seq<char>| r.to_set().contains(v) <==> q.to_set().insert(x).contains(
            v,
        ) by {
            if r.contains(v) {
                let i = choose|i: int| 0 <= i < r.len() && r[i] == v;
            }
        }
        assert(r.to_set() =~= q.to_set().insert(x));
    } else if lex_lt(q.last(), x) {
        assert forall|i: int, j: int| 0 <= i < j < r.len() implies lex_lt(
            #[trigger] r[i],
            #[trigger] r[j],
        ) by {
            if j < q.len() {
                assert(r[i] == q[i] && r[j] == q[j]);
            } else {
                assert(r[i] == q[i]);
                if i < q.len() - 1 {
                    assert(lex_lt(q[i], q[q.len() - 1]));
                    lemma_lex_lt_transitive(q[i], q.last(), x);
                }
            }
        }
        assert forall|v: Seq<char>| r.to_set().contains(v) <==> q.to_set().insert(x).contains(
            v,
        ) by {
            if r.contains(v) {
                let i = choose|i: int| 0 <= i < r.len() && r[i] == v;
                if i < q.len() {
                    assert(q[i] == v);
                }
            }
            if q.contains(v) {
                let i = choose|i: int| 0 <= i < q.len() && q[i] == v;
                assert(r[i] == v);
            }
            if v == x {
                assert(r[q.len() as int] == v);
            }
        }
        assert(r.to_set() =~= q.to_set().insert(x));
    } else {
        let front = q.drop_last();
        let last = q.last();
        assert(q[q.len() - 1] == last);
        assert forall|i: int, j: int| 0 <= i < j < front.len() implies lex_lt(
            #[trigger] front[i],
            #[trigger] front[j],
        ) by {
            assert(front[i] == q[i] && front[j] == q[j]);
        }
        if front.contains(x) {
            let i = choose|i: int| 0 <= i < front.len() && front[i] == x;
            assert(q[i] == x);
        }
        lemma_sorted_insert(front, x);
        lemma_lex_lt_total(last, x);
        let inner = sorted_insert(front, x);
        assert forall|i: int, j: int| 0 <= i < j < r.len() implies lex_lt(
            #[trigger] r[i],
            #[trigger] r[j],
        ) by {
            if j < inner.len() {
                assert(r[i] == inner[i] && r[j] == inner[j]);
            } else {
                assert(r[i] == inner[i]);
                assert(inner.to_set().contains(inner[i]));
                if inner[i] != x {
                    assert(front.to_set().contains(inner[i]));
                    let k = choose|k: int| 0 <= k < front.len() && front[k] == inner[i];
                    assert(q[k] == inner[i]);
                    assert(lex_lt(q[k], q[q.len() - 1]));
                }
            }
        }
        assert forall|v: Seq<char>| r.to_set().contains(v) <==> q.to_set().insert(x).contains(
            v,
        ) by {
            if r.contains(v) {
                let i = choose|i: int| 0 <= i < r.len() && r[i] == v;
                if i < inner.len() {
                    assert(inner[i] == v);
                    assert(inner.to_set().contains(v));
                    if v != x {
                        assert(front.contains(v));
                        let k = choose|k: int| 0 <= k < front.len() && front[k] == v;
                        assert(q[k] == v);
                    }
                }
            }
            if q.contains(v) {
                let i = choose|i: int| 0 <= i < q.len() && q[i] == v;
                if i < front.len() {
                    assert(front[i] == v);
                    assert(front.to_set().contains(v));
                    assert(inner.to_set().contains(v));
                    let k = choose|k: int| 0 <= k < inner.len() && inner[k] == v;
                    assert(r[k] == v);
                } else {
                    assert(r[inner.len() as int] == v);
                }
            }
            if v == x {
                assert(inner.to_set().contains(x));
                let k = choose|k: int| 0 <= k < inner.len() && inner[k] == x;
                assert(r[k] == x);
            }
        }
        assert(r.to_set() =~= q.to_set().insert(x));
    }
}

/// The texts of a finite set can be put in order: `sorted_ids` is strictly sorted and holds
/// exactly the texts of the set.
pub proof fn lemma_sorted_ids_of_finite(s: Set<Seq<char>>)
    requires
        s.finite(),
    ensures
        strictly_sorted(sorted_ids(s)),
        sorted_ids(s).to_set() == s,
    decreases s.len(),
{
    broadcast use vstd::set::group_set_axioms;

    if s.len() == 0 {
        let q = Seq::<Seq<char>>::empty();
        assert(s =~= Set::<Seq<char>>::empty());
        assert(q.to_set() =~= s);
        assert(strictly_sorted(q) && q.to_set() == s);
    } else {
        let x = s.choose();
        let rest = s.remove(x);
        lemma_sorted_ids_of_finite(rest);
        let q0 = sorted_ids(rest);
        lemma_sorted_insert(q0, x);
        let q = sorted_insert(q0, x);
        assert(q.to_set() =~= s);
        assert(strictly_sorted(q) && q.to_set() == s);
    }
}

} // verus!
