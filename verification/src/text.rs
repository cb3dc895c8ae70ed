use vstd::prelude::*;

use crate::value::{values_view, SpecValue, Value};

verus! {

/// The decimal digit for `d`.
pub open spec fn digit_char(d: int) -> char {
    if d == 0 {
        '0'
    } else if d == 1 {
        '1'
    } else if d == 2 {
        '2'
    } else if d == 3 {
        '3'
    } else if d == 4 {
        '4'
    } else if d == 5 {
        '5'
    } else if d == 6 {
        '6'
    } else if d == 7 {
        '7'
    } else if d == 8 {
        '8'
    } else {
        '9'
    }
}

/// The decimal rendering of a natural number.
pub open spec fn nat_text(n: nat) -> Seq<char>
    decreases n,
{
    if n < 10 {
        seq![digit_char(n as int)]
    } else {
        nat_text(n / 10).push(digit_char((n % 10) as int))
    }
}

/// The decimal rendering of an integer.
pub open spec fn int_text(i: int) -> Seq<char> {
    if i < 0 {
        seq!['-'] + nat_text((-i) as nat)
    } else {
        nat_text(i as nat)
    }
}

/// The parts, with `sep` between each two.
pub open spec fn join(parts: Seq<Seq<char>>, sep: Seq<char>) -> Seq<char>
    decreases parts.len(),
{
    if parts.len() == 0 {
        Seq::empty()
    } else if parts.len() == 1 {
        parts[0]
    } else {
        join(parts.drop_last(), sep) + sep + parts.last()
    }
}

/// Python `repr()`-style rendering: strings are quoted with `'...'`.
pub open spec fn repr_spec(v: SpecValue) -> Seq<char>
    decreases v,
{
    match v {
        SpecValue::Bool(b) => if b {
            "True"@
        } else {
            "False"@
        },
        SpecValue::Int(i) => int_text(i),
        SpecValue::Float(_, t) => t,
        SpecValue::String(s) => "'"@ + s + "'"@,
        SpecValue::Bytes(b) => "["@ + join(
            Seq::new(b.len(), |i: int| nat_text(b[i] as nat)),
            ", "@,
        ) + "]"@,
        SpecValue::List(l) => "["@ + join(list_parts(l), ", "@) + "]"@,
        SpecValue::Dict(m) => "{"@ + join(dict_parts(m), ", "@) + "}"@,
        SpecValue::Null => "None"@,
    }
}

/// The renderings of the elements of a list.
pub open spec fn list_parts(l: Seq<SpecValue>) -> Seq<Seq<char>>
    decreases l,
{
    Seq::new(
        l.len(),
        |i: int|
            if 0 <= i < l.len() {
                repr_spec(l[i])
            } else {
                Seq::empty()
            },
    )
}

/// The renderings `key: value` of the entries of a map.
pub open spec fn dict_parts(m: Seq<(SpecValue, SpecValue)>) -> Seq<Seq<char>>
    decreases m,
{
    Seq::new(
        m.len(),
        |i: int|
            if 0 <= i < m.len() {
                proof {
                    assert(decreases_to!(m => m[i].0));
                    assert(decreases_to!(m => m[i].1));
                }
                repr_spec(m[i].0) + ": "@ + repr_spec(m[i].1)
            } else {
                Seq::empty()
            },
    )
}

/// Python `str()`-style rendering: strings are unquoted, everything else is
/// rendered as by `repr_spec`.
pub open spec fn display_spec(v: SpecValue) -> Seq<char> {
    match v {
        SpecValue::String(s) => s,
        _ => repr_spec(v),
    }
}

/// The displays of the values, in order.
pub open spec fn displays(s: Seq<SpecValue>) -> Seq<Seq<char>> {
    s.map_values(|v: SpecValue| display_spec(v))
}

/// The views of the strings, in order.
pub open spec fn string_views(s: Seq<String>) -> Seq<Seq<char>> {
    s.map_values(|x: String| x@)
}

/// Lexicographic order on code points, a proper prefix coming first.
pub open spec fn str_lt(a: Seq<char>, b: Seq<char>) -> bool
    decreases a.len(),
{
    if b.len() == 0 {
        false
    } else if a.len() == 0 {
        true
    } else if a[0] != b[0] {
        (a[0] as u32) < (b[0] as u32)
    } else {
        str_lt(a.drop_first(), b.drop_first())
    }
}

/// Where a stable insertion puts an element with display `k`: before the
/// first element whose display is greater than `k`.
pub open spec fn insert_pos(keys: Seq<Seq<char>>, k: Seq<char>, p: nat) -> nat
    decreases keys.len() - p,
{
    if p >= keys.len() {
        keys.len()
    } else if str_lt(k, keys[p as int]) {
        p
    } else {
        insert_pos(keys, k, p + 1)
    }
}

/// The values sorted by their display, keeping the given order of values
/// whose displays are equal.
pub open spec fn sort_by_display(s: Seq<SpecValue>) -> Seq<SpecValue>
    decreases s.len(),
{
    if s.len() == 0 {
        s
    } else {
        let r = sort_by_display(s.drop_last());
        r.insert(insert_pos(displays(r), display_spec(s.last()), 0) as int, s.last())
    }
}

/// The texts are in non-decreasing order.
pub open spec fn texts_sorted(d: Seq<Seq<char>>) -> bool {
    forall|i: int, j: int| 0 <= i < j < d.len() ==> !str_lt(#[trigger] d[j], #[trigger] d[i])
}

proof fn lemma_str_lt_trans(a: Seq<char>, b: Seq<char>, c: Seq<char>)
    requires
        str_lt(a, b),
        str_lt(b, c),
    ensures
        str_lt(a, c),
    decreases a.len(),
{
    if a.len() > 0 && b.len() > 0 && c.len() > 0 && a[0] == b[0] && b[0] == c[0] {
        lemma_str_lt_trans(a.drop_first(), b.drop_first(), c.drop_first());
    }
}

proof fn lemma_str_lt_irreflexive(a: Seq<char>)
    ensures
        !str_lt(a, a),
    decreases a.len(),
{
    if a.len() > 0 {
        lemma_str_lt_irreflexive(a.drop_first());
    }
}

proof fn lemma_insert_pos(keys: Seq<Seq<char>>, k: Seq<char>, p: nat)
    requires
        p <= keys.len(),
    ensures
        p <= insert_pos(keys, k, p) <= keys.len(),
        forall|q: int| p <= q < insert_pos(keys, k, p) ==> !str_lt(k, #[trigger] keys[q]),
        insert_pos(keys, k, p) < keys.len() ==> str_lt(k, keys[insert_pos(keys, k, p) as int]),
    decreases keys.len() - p,
{
    if p < keys.len() && !str_lt(k, keys[p as int]) {
        lemma_insert_pos(keys, k, p + 1);
    }
}

/// Sorting by display gives the same values, with their displays in
/// non-decreasing order.
pub proof fn lemma_sort_by_display(s: Seq<SpecValue>)
    ensures
        sort_by_display(s).to_multiset() == s.to_multiset(),
        sort_by_display(s).len() == s.len(),
        texts_sorted(displays(sort_by_display(s))),
    decreases s.len(),
{
    if s.len() > 0 {
        let rest = s.drop_last();
        lemma_sort_by_display(rest);
        let r = sort_by_display(rest);
        let x = s.last();
        let k = display_spec(x);
        let d = displays(r);
        lemma_insert_pos(d, k, 0);
        let p = insert_pos(d, k, 0) as int;
        let res = r.insert(p, x);
        assert(res == sort_by_display(s));
        vstd::seq_lib::to_multiset_insert(r, p, x);
        assert(s =~= rest.push(x));
        rest.to_multiset_ensures();
        let d2 = displays(res);
        assert(d2 =~= d.insert(p, k));
        assert forall|i: int, j: int| 0 <= i < j < d2.len() implies !str_lt(
            #[trigger] d2[j],
            #[trigger] d2[i],
        ) by {
            if j < p {
                assert(d2[i] == d[i] && d2[j] == d[j]);
            } else if j == p {
                assert(d2[i] == d[i] && d2[j] == k);
                assert(!str_lt(k, d[i]));
            } else if i < p {
                assert(d2[i] == d[i] && d2[j] == d[j - 1]);
                if i < p {
                    assert(!str_lt(d[j - 1], d[i]));
                }
            } else if i == p {
                assert(d2[i] == k && d2[j] == d[j - 1]);
                assert(p < d.len());
                if str_lt(d[j - 1], k) {
                    if j - 1 > p {
                        assert(!str_lt(d[j - 1], d[p]));
                    }
                    lemma_str_lt_trans(d[j - 1], k, d[p]);
                    lemma_str_lt_irreflexive(d[p]);
                }
            } else {
                assert(d2[i] == d[i - 1] && d2[j] == d[j - 1]);
            }
        }
    }
}

// ---- executable text building ----

/// Appends one character (`String::push`).
#[verifier::external_body]
pub(crate) fn push_char(s: &mut String, c: char)
    ensures
        final(s)@ == old(s)@.push(c),
{
    s.push(c);
}

fn digit(d: u64) -> (c: char)
    requires
        d < 10,
    ensures
        c == digit_char(d as int),
{
    if d == 0 {
        '0'
    } else if d == 1 {
        '1'
    } else if d == 2 {
        '2'
    } else if d == 3 {
        '3'
    } else if d == 4 {
        '4'
    } else if d == 5 {
        '5'
    } else if d == 6 {
        '6'
    } else if d == 7 {
        '7'
    } else if d == 8 {
        '8'
    } else {
        '9'
    }
}

/// Appends the decimal rendering of `n`.
pub(crate) fn append_nat(out: &mut String, n: u64)
    ensures
        final(out)@ == old(out)@ + nat_text(n as nat),
    decreases n,
{
    if n >= 10 {
        append_nat(out, n / 10);
        push_char(out, digit(n % 10));
        proof {
            assert(nat_text(n as nat) == nat_text((n / 10) as nat).push(digit_char((n % 10) as int)));
        }
    } else {
        push_char(out, digit(n));
    }
    assert(final(out)@ =~= old(out)@ + nat_text(n as nat));
}

/// Appends the decimal rendering of `i`.
pub(crate) fn append_int(out: &mut String, i: i64)
    ensures
        final(out)@ == old(out)@ + int_text(i as int),
{
    if i < 0 {
        push_char(out, '-');
        let mag: u64 = if i == i64::MIN {
            9223372036854775808u64
        } else {
            (-i) as u64
        };
        append_nat(out, mag);
        assert(final(out)@ =~= old(out)@ + int_text(i as int));
    } else {
        append_nat(out, i as u64);
    }
}

/// Joining one more part adds the separator and that part.
pub proof fn lemma_join_take(parts: Seq<Seq<char>>, sep: Seq<char>, i: int)
    requires
        0 <= i < parts.len(),
    ensures
        i == 0 ==> join(parts.take(i + 1), sep) == parts[i],
        i > 0 ==> join(parts.take(i + 1), sep) == join(parts.take(i), sep) + sep + parts[i],
{
    assert(parts.take(i + 1).drop_last() =~= parts.take(i));
}

impl Value {
    /// Appends the Python `repr()`-style rendering of this value.
    pub fn append_repr(&self, out: &mut String)
        ensures
            final(out)@ == old(out)@ + repr_spec(self@),
        decreases self@,
    {
        match self {
            Value::Bool(b) => {
                if *b {
                    out.append("True");
                } else {
                    out.append("False");
                }
                assert(out@ =~= old(out)@ + repr_spec(self@));
            },
            Value::Int(i) => {
                append_int(out, *i);
            },
            Value::Float(_, text) => {
                out.append(text.as_str());
            },
            Value::String(s) => {
                out.append("'");
                out.append(s.as_str());
                out.append("'");
                assert(out@ =~= old(out)@ + repr_spec(self@));
            },
            Value::Null => {
                out.append("None");
            },
            Value::Bytes(b) => {
                let ghost parts = Seq::new(b@.len(), |i: int| nat_text(b@[i] as nat));
                out.append("[");
                let ghost start = out@;
                let mut i: usize = 0;
                while i < b.len()
                    invariant
                        0 <= i <= b.len(),
                        parts == Seq::new(b@.len(), |i: int| nat_text(b@[i] as nat)),
                        out@ == start + join(parts.take(i as int), ", "@),
                    decreases b.len() - i,
                {
                    proof {
                        lemma_join_take(parts, ", "@, i as int);
                    }
                    if i > 0 {
                        out.append(", ");
                    }
                    append_nat(out, b[i] as u64);
                    i = i + 1;
                    assert(out@ =~= start + join(parts.take(i as int), ", "@));
                }
                assert(parts.take(b.len() as int) =~= parts);
                out.append("]");
                assert(out@ =~= old(out)@ + repr_spec(self@));
            },
            Value::List(l) => {
                let ghost sl = self@->List_0;
                let ghost parts = list_parts(sl);
                out.append("[");
                let ghost start = out@;
                let mut i: usize = 0;
                while i < l.len()
                    invariant
                        0 <= i <= l.len(),
                        *self == Value::List(*l),
                        sl == self@->List_0,
                        sl.len() == l@.len(),
                        parts == list_parts(sl),
                        out@ == start + join(parts.take(i as int), ", "@),
                    decreases l.len() - i,
                {
                    proof {
                        lemma_join_take(parts, ", "@, i as int);
                        assert(sl[i as int] == l@[i as int]@);
                    }
                    if i > 0 {
                        out.append(", ");
                    }
                    l[i].append_repr(out);
                    i = i + 1;
                    assert(out@ =~= start + join(parts.take(i as int), ", "@));
                }
                assert(parts.take(l.len() as int) =~= parts);
                out.append("]");
                assert(out@ =~= old(out)@ + repr_spec(self@));
            },
            Value::Dict(m) => {
                let ghost sm = self@->Dict_0;
                let ghost parts = dict_parts(sm);
                out.append("{");
                let ghost start = out@;
                let n = m.len();
                let mut i: usize = 0;
                while i < n
                    invariant
                        0 <= i <= n,
                        *self == Value::Dict(*m),
                        sm == self@->Dict_0,
                        sm == m@,
                        n == sm.len(),
                        parts == dict_parts(sm),
                        out@ == start + join(parts.take(i as int), ", "@),
                    decreases n - i,
                {
                    proof {
                        lemma_join_take(parts, ", "@, i as int);
                    }
                    if i > 0 {
                        out.append(", ");
                    }
                    match m.get_index(i) {
                        Some((k, v)) => {
                            proof {
                                assert(decreases_to!(self@ => sm));
                                assert(decreases_to!(sm => sm[i as int]));
                                assert(decreases_to!(sm[i as int] => sm[i as int].0));
                                assert(decreases_to!(sm[i as int] => sm[i as int].1));
                            }
                            k.append_repr(out);
                            out.append(": ");
                            v.append_repr(out);
                        },
                        None => {},
                    }
                    i = i + 1;
                    assert(out@ =~= start + join(parts.take(i as int), ", "@));
                }
                assert(parts.take(n as int) =~= parts);
                out.append("}");
                assert(out@ =~= old(out)@ + repr_spec(self@));
            },
        }
    }

    /// Python `repr()`-style formatting: strings are quoted with `'...'`.
    pub fn repr(&self) -> (r: String)
        ensures
            r@ == repr_spec(self@),
    {
        let mut s = String::new();
        self.append_repr(&mut s);
        assert(s@ =~= repr_spec(self@));
        s
    }

    /// Appends the Python `str()`-style rendering of this value.
    pub fn append_display(&self, out: &mut String)
        ensures
            final(out)@ == old(out)@ + display_spec(self@),
    {
        match self {
            Value::String(s) => {
                out.append(s.as_str());
            },
            _ => {
                self.append_repr(out);
            },
        }
    }

    /// Python `str()`-style formatting: strings are unquoted.
    pub fn to_string(&self) -> (r: String)
        ensures
            r@ == display_spec(self@),
    {
        let mut s = String::new();
        self.append_display(&mut s);
        assert(s@ =~= display_spec(self@));
        s
    }
}

// ---- ordering and sorting ----

proof fn lemma_str_lt_skip(a: Seq<char>, b: Seq<char>, i: int)
    requires
        0 <= i <= a.len(),
        i <= b.len(),
        forall|k: int| 0 <= k < i ==> a[k] == b[k],
    ensures
        str_lt(a, b) == str_lt(a.skip(i), b.skip(i)),
    decreases i,
{
    if i > 0 {
        lemma_str_lt_skip(a.drop_first(), b.drop_first(), i - 1);
        assert(a.drop_first().skip(i - 1) =~= a.skip(i));
        assert(b.drop_first().skip(i - 1) =~= b.skip(i));
    } else {
        assert(a.skip(0) =~= a);
        assert(b.skip(0) =~= b);
    }
}

/// Whether `a` comes before `b` in code-point order.
pub fn str_less(a: &str, b: &str) -> (r: bool)
    ensures
        r == str_lt(a@, b@),
{
    let la = a.unicode_len();
    let lb = b.unicode_len();
    let mut i: usize = 0;
    while i < la && i < lb
        invariant
            la == a@.len(),
            lb == b@.len(),
            0 <= i <= la,
            i <= lb,
            forall|k: int| 0 <= k < i ==> a@[k] == b@[k],
        decreases la - i,
    {
        let ca = a.get_char(i);
        let cb = b.get_char(i);
        if ca != cb {
            proof {
                lemma_str_lt_skip(a@, b@, i as int);
                assert(a@.skip(i as int)[0] == ca);
                assert(b@.skip(i as int)[0] == cb);
            }
            return (ca as u32) < (cb as u32);
        }
        i = i + 1;
    }
    proof {
        lemma_str_lt_skip(a@, b@, i as int);
    }
    i < lb
}

/// Sorts the values by their display strings, keeping the given order of
/// values whose displays are equal.
pub fn sort_values_by_display(vals: &Vec<Value>) -> (r: Vec<Value>)
    ensures
        values_view(r@) == sort_by_display(values_view(vals@)),
{
    let ghost src = vals@.map_values(|v: Value| v@);
    let mut res: Vec<Value> = Vec::new();
    let mut keys: Vec<String> = Vec::new();
    let mut i: usize = 0;
    while i < vals.len()
        invariant
            0 <= i <= vals.len(),
            src == vals@.map_values(|v: Value| v@),
            res@.len() == keys@.len(),
            res@.map_values(|v: Value| v@) == sort_by_display(src.take(i as int)),
            string_views(keys@) == displays(res@.map_values(|v: Value| v@)),
        decreases vals.len() - i,
    {
        let ghost rv = res@.map_values(|v: Value| v@);
        let key = vals[i].to_string();
        let mut p: usize = 0;
        let mut found = false;
        while p < keys.len() && !found
            invariant
                0 <= p <= keys.len(),
                string_views(keys@) == displays(rv),
                insert_pos(displays(rv), key@, 0) == insert_pos(displays(rv), key@, p as nat),
                found ==> p < keys.len() && str_lt(key@, keys@[p as int]@),
            decreases keys.len() - p, if found { 0int } else { 1int },
        {
            if str_less(key.as_str(), keys[p].as_str()) {
                found = true;
            } else {
                proof {
                    assert(string_views(keys@)[p as int] == keys@[p as int]@);
                }
                p = p + 1;
            }
        }
        proof {
            assert(string_views(keys@).len() == keys@.len());
            if p < keys.len() {
                assert(string_views(keys@)[p as int] == keys@[p as int]@);
            }
            assert(insert_pos(displays(rv), key@, 0) == p);
        }
        let v = vals[i].deep_copy();
        let ghost vv = v@;
        let ghost old_keys = keys@;
        let ghost kv = key@;
        assert(kv == display_spec(vv));
        res.insert(p, v);
        keys.insert(p, key);
        proof {
            assert(src.take(i as int + 1).drop_last() =~= src.take(i as int));
            assert(src.take(i as int + 1).last() == vv);
            assert(res@.map_values(|v: Value| v@) =~= rv.insert(p as int, vv));
            assert(keys@ == old_keys.insert(p as int, key));
            assert forall|j: int| 0 <= j < keys@.len() implies #[trigger] string_views(keys@)[j] == displays(res@.map_values(|v: Value| v@))[j] by {
                if j < p {
                    assert(string_views(old_keys)[j] == displays(rv)[j]);
                } else if j > p {
                    assert(string_views(old_keys)[j - 1] == displays(rv)[j - 1]);
                }
            }
            assert(string_views(keys@) =~= displays(res@.map_values(|v: Value| v@)));
        }
        i = i + 1;
    }
    assert(src.take(vals.len() as int) =~= src);
    assert(values_view(res@) == res@.map_values(|v: Value| v@));
    res
}

/// Appends the displays of the values with `sep` between each two.
pub fn append_displays_joined(out: &mut String, vals: &Vec<Value>, sep: &str)
    ensures
        final(out)@ == old(out)@ + join(displays(values_view(vals@)), sep@),
{
    let ghost parts = displays(values_view(vals@));
    let mut i: usize = 0;
    while i < vals.len()
        invariant
            0 <= i <= vals.len(),
            parts == displays(values_view(vals@)),
            parts.len() == vals@.len(),
            out@ == old(out)@ + join(parts.take(i as int), sep@),
        decreases vals.len() - i,
    {
        proof {
            lemma_join_take(parts, sep@, i as int);
            assert(parts[i as int] == display_spec(vals@[i as int]@));
        }
        if i > 0 {
            out.append(sep);
        }
        vals[i].append_display(out);
        i = i + 1;
        assert(out@ =~= old(out)@ + join(parts.take(i as int), sep@));
    }
    assert(parts.take(vals.len() as int) =~= parts);
}

} // verus!
