use vstd::prelude::*;

use crate::database::MovieError;
use crate::movie::{views, Movie, MovieView};

verus! {

/// The character of the decimal digit `d`.
pub open spec fn digit_char(d: int) -> char {
    if d == 0 {
        '0'
    } else if d == 1 {
        '1'
    } else if d == 2 {
        '2'
    } else if d == 3 {
        '3'
    } else if d == 4 {
        '4'
    } else if d == 5 {
        '5'
    } else if d == 6 {
        '6'
    } else if d == 7 {
        '7'
    } else if d == 8 {
        '8'
    } else {
        '9'
    }
}

/// The decimal digits of `n`, most significant first, without leading zeros.
pub open spec fn decimal(n: nat) -> Seq<char>
    decreases n,
{
    if n < 10 {
        seq![digit_char(n as int)]
    } else {
        decimal(n / 10).push(digit_char((n % 10) as int))
    }
}

/// A character as it stands inside a quoted field: a quote is doubled.
pub open spec fn escape_char(c: char) -> Seq<char> {
    if c == '"' {
        seq!['"', '"']
    } else {
        seq![c]
    }
}

/// The characters of `s` with every quote doubled.
pub open spec fn escaped(s: Seq<char>) -> Seq<char>
    decreases s.len(),
{
    if s.len() == 0 {
        Seq::empty()
    } else {
        escaped(s.drop_last()) + escape_char(s.last())
    }
}

/// A text field in quotes.
pub open spec fn quoted(s: Seq<char>) -> Seq<char> {
    seq!['"'] + escaped(s) + seq!['"']
}

/// One line of a snapshot: the id, then the three text fields, quoted.
pub open spec fn row_text(m: MovieView) -> Seq<char> {
    decimal(m.id as nat) + seq![','] + quoted(m.title) + seq![','] + quoted(m.director) + seq![
        ',',
    ] + quoted(m.release_date) + seq!['\n']
}

/// The lines of the records `s`, in order.
pub open spec fn rows_text(s: Seq<MovieView>) -> Seq<char>
    decreases s.len(),
{
    if s.len() == 0 {
        Seq::empty()
    } else {
        rows_text(s.drop_last()) + row_text(s.last())
    }
}

/// The first line of every snapshot.
pub open spec fn header_text() -> Seq<char> {
    "id,title,director,release_date\n"@
}

/// The snapshot of the records `s`: the header line, then a line per record.
pub open spec fn snapshot_text(s: Seq<MovieView>) -> Seq<char> {
    header_text() + rows_text(s)
}

/// Whether `c` is a decimal digit.
pub open spec fn is_digit(c: char) -> bool {
    '0' <= c <= '9'
}

/// The number that the digits `ds` spell, most significant first.
pub open spec fn digits_value(ds: Seq<char>) -> int
    decreases ds.len(),
{
    if ds.len() == 0 {
        0
    } else {
        digits_value(ds.drop_last()) * 10 + (ds.last() as int - '0' as int)
    }
}

proof fn lemma_decimal(n: nat)
    ensures
        decimal(n).len() > 0,
        forall|j: int| 0 <= j < decimal(n).len() ==> is_digit(#[trigger] decimal(n)[j]),
        digits_value(decimal(n)) == n,
    decreases n,
{
    lemma_digit_char((n % 10) as int);
    if n >= 10 {
        lemma_decimal(n / 10);
        assert(decimal(n).drop_last() =~= decimal(n / 10));
        assert forall|j: int| 0 <= j < decimal(n).len() implies is_digit(#[trigger] decimal(n)[j]) by {
            if j < decimal(n / 10).len() {
                assert(decimal(n)[j] == decimal(n / 10)[j]);
            }
        }
        assert(decimal(n).last() == digit_char((n % 10) as int));
        assert(digits_value(decimal(n)) == digits_value(decimal(n / 10)) * 10 + (n % 10));
        assert((n / 10) * 10 + n % 10 == n);
    } else {
        assert(decimal(n).drop_last() =~= Seq::<char>::empty());
        assert(digits_value(decimal(n)) == digits_value(Seq::<char>::empty()) * 10 + (n % 10));
    }
}

proof fn lemma_digit_char(d: int)
    requires
        0 <= d < 10,
    ensures
        is_digit(digit_char(d)),
        digit_char(d) as int - '0' as int == d,
{
}

proof fn lemma_digits_prefix(ds: Seq<char>, k: int)
    requires
        0 <= k <= ds.len(),
        forall|j: int| 0 <= j < ds.len() ==> is_digit(#[trigger] ds[j]),
    ensures
        0 <= digits_value(ds.subrange(0, k)) <= digits_value(ds),
    decreases ds.len(),
{
    if k == ds.len() {
        assert(ds.subrange(0, k) =~= ds);
        lemma_digits_nonneg(ds);
    } else {
        let d = ds.drop_last();
        lemma_digits_prefix(d, k);
        assert(d.subrange(0, k) =~= ds.subrange(0, k));
        lemma_digits_nonneg(d);
    }
}

proof fn lemma_digits_nonneg(ds: Seq<char>)
    requires
        forall|j: int| 0 <= j < ds.len() ==> is_digit(#[trigger] ds[j]),
    ensures
        digits_value(ds) >= 0,
    decreases ds.len(),
{
    if ds.len() > 0 {
        lemma_digits_nonneg(ds.drop_last());
    }
}

proof fn lemma_escaped_concat(a: Seq<char>, b: Seq<char>)
    ensures
        escaped(a + b) == escaped(a) + escaped(b),
    decreases b.len(),
{
    if b.len() == 0 {
        assert(a + b =~= a);
        assert(escaped(a) + escaped(b) =~= escaped(a));
    } else {
        lemma_escaped_concat(a, b.drop_last());
        assert((a + b).drop_last() =~= a + b.drop_last());
        assert(escaped(a) + escaped(b) =~= escaped(a) + escaped(b.drop_last()) + escape_char(
            b.last(),
        ));
    }
}

proof fn lemma_rows_concat(a: Seq<MovieView>, b: Seq<MovieView>)
    ensures
        rows_text(a + b) == rows_text(a) + rows_text(b),
    decreases b.len(),
{
    if b.len() == 0 {
        assert(a + b =~= a);
        assert(rows_text(a) + rows_text(b) =~= rows_text(a));
    } else {
        lemma_rows_concat(a, b.drop_last());
        assert((a + b).drop_last() =~= a + b.drop_last());
        assert(rows_text(a) + rows_text(b) =~= rows_text(a) + rows_text(b.drop_last()) + row_text(
            b.last(),
        ));
    }
}

/// `t` holds `piece` from position `p` on.
pub open spec fn holds_at(t: Seq<char>, p: int, piece: Seq<char>) -> bool {
    0 <= p && p + piece.len() <= t.len() && t.subrange(p, p + piece.len()) == piece
}

proof fn lemma_split(t: Seq<char>, p: int, a: Seq<char>, b: Seq<char>)
    requires
        holds_at(t, p, a + b),
    ensures
        holds_at(t, p, a),
        holds_at(t, p + a.len(), b),
{
    let w = t.subrange(p, p + (a + b).len());
    assert(t.subrange(p, p + a.len()) =~= w.subrange(0, a.len() as int));
    assert(w.subrange(0, a.len() as int) =~= a);
    assert(t.subrange(p + a.len(), p + a.len() + b.len()) =~= w.subrange(
        a.len() as int,
        (a.len() + b.len()) as int,
    ));
    assert(w.subrange(a.len() as int, (a.len() + b.len()) as int) =~= b);
}

/// `t` holds the decimal digits of `n` at `p`, and no digit after them.
pub open spec fn decimal_at(t: Seq<char>, p: int, n: u32) -> bool {
    &&& holds_at(t, p, decimal(n as nat))
    &&& p + decimal(n as nat).len() < t.len()
    &&& !is_digit(t[p + decimal(n as nat).len()])
}

fn parse_decimal(t: &Vec<char>, p: usize) -> (r: Option<(u32, usize)>)
    requires
        p <= t@.len(),
    ensures
        r matches Some((n, q)) ==> p < q <= t@.len(),
        forall|n: u32|
            decimal_at(t@, p as int, n) ==> (r matches Some((m, q)) && m == n && q == p
                + decimal(n as nat).len()),
{
    let mut i: usize = p;
    let mut value: u64 = 0;
    while i < t.len() && '0' <= t[i] && t[i] <= '9'
        invariant
            p <= i <= t@.len(),
            forall|j: int| p <= j < i ==> is_digit(#[trigger] t@[j]),
            value == digits_value(t@.subrange(p as int, i as int)),
            value <= u32::MAX,
        decreases t@.len() - i,
    {
        let d = (t[i] as u32 - '0' as u32) as u64;
        proof {
            let a = t@.subrange(p as int, i + 1);
            assert(a.drop_last() =~= t@.subrange(p as int, i as int));
        }
        value = value * 10 + d;
        if value > u32::MAX as u64 {
            proof {
                assert forall|n: u32| !decimal_at(t@, p as int, n) by {
                    if decimal_at(t@, p as int, n) {
                        let ds = decimal(n as nat);
                        lemma_decimal(n as nat);
                        if i >= p + ds.len() {
                            assert(is_digit(t@[p + ds.len()]));
                        }
                        assert(t@.subrange(p as int, i + 1) =~= ds.subrange(0, i + 1 - p));
                        lemma_digits_prefix(ds, i + 1 - p);
                    }
                }
            }
            return None;
        }
        i += 1;
    }
    proof {
        assert forall|n: u32| decimal_at(t@, p as int, n) implies i == p + decimal(
            n as nat,
        ).len() && value == n by {
            let ds = decimal(n as nat);
            let e = p + ds.len();
            lemma_decimal(n as nat);
            if i < e {
                assert(t@[i as int] == ds[i - p]);
            } else if i > e {
                assert(is_digit(t@[e]));
            }
            assert(t@.subrange(p as int, i as int) =~= ds);
        }
    }
    if i == p {
        proof {
            assert forall|n: u32| !decimal_at(t@, p as int, n) by {
                lemma_decimal(n as nat);
            }
        }
        return None;
    }
    Some((value as u32, i))
}

/// `t` holds the field `x`, quoted, at `p`, and no quote right after it.
pub open spec fn quoted_at(t: Seq<char>, p: int, x: Seq<char>) -> bool {
    &&& holds_at(t, p, quoted(x))
    &&& p + quoted(x).len() < t.len()
    &&& t[p + quoted(x).len()] != '"'
}

fn parse_quoted(t: &Vec<char>, p: usize) -> (r: Option<(Vec<char>, usize)>)
    requires
        p <= t@.len(),
    ensures
        r matches Some((y, q)) ==> p < q <= t@.len(),
        forall|x: Seq<char>|
            quoted_at(t@, p as int, x) ==> (r matches Some((y, q)) && y@ == x && q == p
                + quoted(x).len()),
{
    if p >= t.len() || t[p] != '"' {
        proof {
            assert forall|x: Seq<char>| !quoted_at(t@, p as int, x) by {
                if quoted_at(t@, p as int, x) {
                    assert(t@[p as int] == quoted(x)[0]);
                }
            }
        }
        return None;
    }
    let mut out: Vec<char> = Vec::new();
    let mut i: usize = p + 1;
    while i < t.len()
        invariant
            p + 1 <= i <= t@.len(),
            forall|x: Seq<char>|
                quoted_at(t@, p as int, x) ==> (out@.len() <= x.len() && out@ == x.subrange(
                    0,
                    out@.len() as int,
                ) && i == p + 1 + escaped(out@).len()),
        decreases t@.len() - i,
    {
        let c = t[i];
        let ghost old_out = out@;
        if c == '"' {
            if i + 1 < t.len() && t[i + 1] == '"' {
                out.push('"');
                i += 2;
            } else {
                proof {
                    assert forall|x: Seq<char>| quoted_at(t@, p as int, x) implies out@ == x
                        && i + 1 == p + quoted(x).len() by {
                        lemma_quoted_step(t@, p as int, x, out@, i as int);
                    }
                }
                return Some((out, i + 1));
            }
        } else {
            out.push(c);
            i += 1;
        }
        proof {
            assert forall|x: Seq<char>| quoted_at(t@, p as int, x) implies (out@.len() <= x.len()
                && out@ == x.subrange(0, out@.len() as int) && i == p + 1 + escaped(
                out@,
            ).len()) by {
                lemma_quoted_step(t@, p as int, x, old_out, (i - escape_char(c).len()) as int);
                assert(out@.drop_last() =~= old_out);
                assert(x.subrange(0, old_out.len() + 1 as int).drop_last() =~= x.subrange(
                    0,
                    old_out.len() as int,
                ));
                assert(out@ =~= x.subrange(0, out@.len() as int));
            }
        }
    }
    proof {
        assert forall|x: Seq<char>| !quoted_at(t@, p as int, x) by {
            if quoted_at(t@, p as int, x) {
                lemma_escaped_concat(out@, x.subrange(out@.len() as int, x.len() as int));
                assert(out@ + x.subrange(out@.len() as int, x.len() as int) =~= x);
            }
        }
    }
    None
}

/// What a field `x` quoted at `p` shows at the position `i` reached after
/// the first `done.len()` of its characters.
proof fn lemma_quoted_step(t: Seq<char>, p: int, x: Seq<char>, done: Seq<char>, i: int)
    requires
        quoted_at(t, p, x),
        done.len() <= x.len(),
        done == x.subrange(0, done.len() as int),
        i == p + 1 + escaped(done).len(),
    ensures
        done.len() == x.len() ==> t[i] == '"' && t[i + 1] != '"' && i + 1 == p + quoted(x).len()
            && done == x,
        done.len() < x.len() ==> i + escape_char(x[done.len() as int]).len() < t.len() && (if x[
            done.len() as int] == '"' {
            t[i] == '"' && t[i + 1] == '"'
        } else {
            t[i] == x[done.len() as int] && t[i] != '"'
        }),
{
    let k = done.len() as int;
    let rest = x.subrange(k, x.len() as int);
    assert(done + rest =~= x);
    lemma_escaped_concat(done, rest);
    let q = quoted(x);
    assert(q =~= seq!['"'] + escaped(done) + escaped(rest) + seq!['"']);
    assert(t[i] == q[i - p]);
    if k == x.len() {
        assert(rest.len() == 0);
        assert(done =~= x);
    } else {
        let one = seq![x[k]];
        let after = x.subrange(k + 1, x.len() as int);
        assert(one + after =~= rest);
        lemma_escaped_concat(one, after);
        assert(one.drop_last() =~= Seq::<char>::empty());
        assert(escaped(one.drop_last()) == Seq::<char>::empty());
        assert(Seq::<char>::empty() + escape_char(x[k]) =~= escape_char(x[k]));
        assert(escaped(one) == escape_char(x[k]));
        assert(t[i + 1] == q[i + 1 - p]);
    }
}

proof fn lemma_row_parts(t: Seq<char>, p: int, m: MovieView)
    requires
        holds_at(t, p, row_text(m)),
    ensures
        ({
            let a = p + decimal(m.id as nat).len();
            let b = a + 1 + quoted(m.title).len();
            let c = b + 1 + quoted(m.director).len();
            let e = c + 1 + quoted(m.release_date).len();
            &&& decimal_at(t, p, m.id)
            &&& t[a] == ','
            &&& quoted_at(t, a + 1, m.title)
            &&& t[b] == ','
            &&& quoted_at(t, b + 1, m.director)
            &&& t[c] == ','
            &&& quoted_at(t, c + 1, m.release_date)
            &&& e < t.len()
            &&& t[e] == '\n'
            &&& e + 1 == p + row_text(m).len()
        }),
{
    let d = decimal(m.id as nat);
    let q1 = quoted(m.title);
    let q2 = quoted(m.director);
    let q3 = quoted(m.release_date);
    let comma = seq![','];
    let r1 = d + comma;
    let r2 = r1 + q1;
    let r3 = r2 + comma;
    let r4 = r3 + q2;
    let r5 = r4 + comma;
    let r6 = r5 + q3;
    lemma_split(t, p, r6, seq!['\n']);
    lemma_split(t, p, r5, q3);
    lemma_split(t, p, r4, comma);
    lemma_split(t, p, r3, q2);
    lemma_split(t, p, r2, comma);
    lemma_split(t, p, r1, q1);
    lemma_split(t, p, d, comma);
    assert(t[p + d.len()] == t.subrange(p + d.len(), p + d.len() + 1)[0]);
    assert(t[p + r2.len()] == t.subrange(p + r2.len(), p + r2.len() + 1)[0]);
    assert(t[p + r4.len()] == t.subrange(p + r4.len(), p + r4.len() + 1)[0]);
    assert(t[p + r6.len()] == t.subrange(p + r6.len(), p + r6.len() + 1)[0]);
    lemma_decimal(m.id as nat);
}


/// `x` can stand in a row without quotes: it holds no comma, quote or line break.
pub open spec fn plain_ok(x: Seq<char>) -> bool {
    forall|j: int| 0 <= j < x.len() ==> x[j] != ',' && x[j] != '"' && x[j] != '\n'
}

/// A text field as written: as it is where `plain`, else quoted.
pub open spec fn field_text(x: Seq<char>, plain: bool) -> Seq<char> {
    if plain {
        x
    } else {
        quoted(x)
    }
}

/// One line of a snapshot, with each text field written plain or quoted as
/// `f` says.
pub open spec fn row_text_as(m: MovieView, f: (bool, bool, bool)) -> Seq<char> {
    decimal(m.id as nat) + seq![','] + field_text(m.title, f.0) + seq![','] + field_text(
        m.director,
        f.1,
    ) + seq![','] + field_text(m.release_date, f.2) + seq!['\n']
}

/// Every field that `f` writes plain can be written so.
pub open spec fn form_ok(m: MovieView, f: (bool, bool, bool)) -> bool {
    &&& f.0 ==> plain_ok(m.title)
    &&& f.1 ==> plain_ok(m.director)
    &&& f.2 ==> plain_ok(m.release_date)
}

/// The lines of the records `s`, each written as `fs` says.
pub open spec fn rows_text_as(s: Seq<MovieView>, fs: Seq<(bool, bool, bool)>) -> Seq<char>
    decreases s.len(),
{
    if s.len() == 0 || fs.len() == 0 {
        Seq::empty()
    } else {
        rows_text_as(s.drop_last(), fs.drop_last()) + row_text_as(s.last(), fs.last())
    }
}

/// `fs` gives each record of `s` a way of writing it.
pub open spec fn forms_ok(s: Seq<MovieView>, fs: Seq<(bool, bool, bool)>) -> bool {
    &&& fs.len() == s.len()
    &&& forall|i: int| 0 <= i < s.len() ==> form_ok(s[i], fs[i])
}

/// A snapshot of the records `s`, with the text fields written as `fs` says.
pub open spec fn snapshot_text_as(s: Seq<MovieView>, fs: Seq<(bool, bool, bool)>) -> Seq<char> {
    header_text() + rows_text_as(s, fs)
}

/// `text` is a snapshot of the records `s`, each text field written plain
/// or quoted.
pub open spec fn written_as(s: Seq<MovieView>, text: Seq<char>) -> bool {
    exists|fs: Seq<(bool, bool, bool)>| #[trigger] forms_ok(s, fs) && snapshot_text_as(s, fs) == text
}

proof fn lemma_written_as(s: Seq<MovieView>, fs: Seq<(bool, bool, bool)>, text: Seq<char>)
    requires
        forms_ok(s, fs),
        snapshot_text_as(s, fs) == text,
    ensures
        written_as(s, text),
{
}

/// The forms that quote every field of `n` records.
pub open spec fn all_quoted(n: nat) -> Seq<(bool, bool, bool)> {
    Seq::new(n, |i: int| (false, false, false))
}

proof fn lemma_all_quoted(s: Seq<MovieView>)
    ensures
        forms_ok(s, all_quoted(s.len())),
        rows_text_as(s, all_quoted(s.len())) == rows_text(s),
    decreases s.len(),
{
    if s.len() > 0 {
        lemma_all_quoted(s.drop_last());
        assert(all_quoted(s.len()).drop_last() =~= all_quoted(s.drop_last().len()));
    }
}

proof fn lemma_rows_as_concat(
    a: Seq<MovieView>,
    fa: Seq<(bool, bool, bool)>,
    b: Seq<MovieView>,
    fb: Seq<(bool, bool, bool)>,
)
    requires
        fa.len() == a.len(),
        fb.len() == b.len(),
    ensures
        rows_text_as(a + b, fa + fb) == rows_text_as(a, fa) + rows_text_as(b, fb),
    decreases b.len(),
{
    if b.len() == 0 {
        assert(a + b =~= a);
        assert(fa + fb =~= fa);
        assert(rows_text_as(a, fa) + rows_text_as(b, fb) =~= rows_text_as(a, fa));
    } else {
        lemma_rows_as_concat(a, fa, b.drop_last(), fb.drop_last());
        assert((a + b).drop_last() =~= a + b.drop_last());
        assert((fa + fb).drop_last() =~= fa + fb.drop_last());
        assert(rows_text_as(a, fa) + rows_text_as(b, fb) =~= rows_text_as(a, fa) + rows_text_as(
            b.drop_last(),
            fb.drop_last(),
        ) + row_text_as(b.last(), fb.last()));
    }
}

/// `t` holds the field `x`, unquoted, at `p`, then a comma or line break.
pub open spec fn plain_at(t: Seq<char>, p: int, x: Seq<char>) -> bool {
    &&& holds_at(t, p, x)
    &&& plain_ok(x)
    &&& p + x.len() < t.len()
    &&& (t[p + x.len()] == ',' || t[p + x.len()] == '\n')
}

/// `t` holds the field `x` at `p`, written as `plain` says.
pub open spec fn field_at(t: Seq<char>, p: int, x: Seq<char>, plain: bool) -> bool {
    if plain {
        plain_at(t, p, x)
    } else {
        quoted_at(t, p, x)
    }
}

fn parse_plain(t: &Vec<char>, p: usize) -> (r: (Vec<char>, usize))
    requires
        p <= t@.len(),
    ensures
        p <= r.1 <= t@.len(),
        plain_ok(r.0@),
        forall|x: Seq<char>| plain_at(t@, p as int, x) ==> r.0@ == x && r.1 == p + x.len(),
{
    let mut out: Vec<char> = Vec::new();
    let mut i: usize = p;
    while i < t.len() && t[i] != ',' && t[i] != '"' && t[i] != '\n'
        invariant
            p <= i <= t@.len(),
            out@ == t@.subrange(p as int, i as int),
            plain_ok(out@),
        decreases t@.len() - i,
    {
        out.push(t[i]);
        i += 1;
        proof {
            assert(out@ =~= t@.subrange(p as int, i as int));
        }
    }
    proof {
        assert forall|x: Seq<char>| plain_at(t@, p as int, x) implies out@ == x && i == p
            + x.len() by {
            let e = p + x.len();
            if i < e {
                assert(t@[i as int] == x[i - p]);
            } else if i > e {
                assert(t@[e] == out@[e - p]);
            }
            assert(out@ =~= x);
        }
    }
    (out, i)
}

fn parse_field(t: &Vec<char>, p: usize) -> (r: Option<(Vec<char>, bool, usize)>)
    requires
        p <= t@.len(),
    ensures
        r matches Some((y, b, q)) ==> p <= q <= t@.len() && (b ==> plain_ok(y@)),
        forall|x: Seq<char>, b: bool|
            field_at(t@, p as int, x, b) ==> (r matches Some((y, c, q)) && y@ == x && c == b && q
                == p + field_text(x, b).len()),
{
    if p < t.len() && t[p] == '"' {
        proof {
            assert forall|x: Seq<char>| !plain_at(t@, p as int, x) by {
                if plain_at(t@, p as int, x) && x.len() > 0 {
                    assert(t@[p as int] == x[0]);
                }
            }
        }
        match parse_quoted(t, p) {
            Some((y, q)) => Some((y, false, q)),
            None => None,
        }
    } else {
        proof {
            assert forall|x: Seq<char>| !quoted_at(t@, p as int, x) by {
                if quoted_at(t@, p as int, x) {
                    assert(t@[p as int] == quoted(x)[0]);
                }
            }
        }
        let (y, q) = parse_plain(t, p);
        Some((y, true, q))
    }
}

proof fn lemma_row_as_parts(t: Seq<char>, p: int, m: MovieView, f: (bool, bool, bool))
    requires
        holds_at(t, p, row_text_as(m, f)),
        form_ok(m, f),
    ensures
        ({
            let a = p + decimal(m.id as nat).len();
            let b = a + 1 + field_text(m.title, f.0).len();
            let c = b + 1 + field_text(m.director, f.1).len();
            let e = c + 1 + field_text(m.release_date, f.2).len();
            &&& decimal_at(t, p, m.id)
            &&& t[a] == ','
            &&& field_at(t, a + 1, m.title, f.0)
            &&& t[b] == ','
            &&& field_at(t, b + 1, m.director, f.1)
            &&& t[c] == ','
            &&& field_at(t, c + 1, m.release_date, f.2)
            &&& e < t.len()
            &&& t[e] == '\n'
            &&& e + 1 == p + row_text_as(m, f).len()
        }),
{
    let d = decimal(m.id as nat);
    let q1 = field_text(m.title, f.0);
    let q2 = field_text(m.director, f.1);
    let q3 = field_text(m.release_date, f.2);
    let comma = seq![','];
    let r1 = d + comma;
    let r2 = r1 + q1;
    let r3 = r2 + comma;
    let r4 = r3 + q2;
    let r5 = r4 + comma;
    let r6 = r5 + q3;
    lemma_split(t, p, r6, seq!['\n']);
    lemma_split(t, p, r5, q3);
    lemma_split(t, p, r4, comma);
    lemma_split(t, p, r3, q2);
    lemma_split(t, p, r2, comma);
    lemma_split(t, p, r1, q1);
    lemma_split(t, p, d, comma);
    assert(t[p + d.len()] == t.subrange(p + d.len(), p + d.len() + 1)[0]);
    assert(t[p + r2.len()] == t.subrange(p + r2.len(), p + r2.len() + 1)[0]);
    assert(t[p + r4.len()] == t.subrange(p + r4.len(), p + r4.len() + 1)[0]);
    assert(t[p + r6.len()] == t.subrange(p + r6.len(), p + r6.len() + 1)[0]);
    lemma_decimal(m.id as nat);
}

fn parse_row_as(t: &Vec<char>, p: usize) -> (r: Option<(Movie, (bool, bool, bool), usize)>)
    requires
        p <= t@.len(),
    ensures
        r matches Some((m, g, q)) ==> p < q <= t@.len() && form_ok(m@, g),
        forall|m: MovieView, f: (bool, bool, bool)|
            form_ok(m, f) && holds_at(t@, p as int, row_text_as(m, f)) ==> (r matches Some(
                (v, g, q),
            ) && v@ == m && g == f && q == p + row_text_as(m, f).len()),
{
    let (id, a) = match parse_decimal(t, p) {
        Some(x) => x,
        None => {
            proof {
                assert forall|m: MovieView, f: (bool, bool, bool)|
                    !(form_ok(m, f) && holds_at(t@, p as int, row_text_as(m, f))) by {
                    if form_ok(m, f) && holds_at(t@, p as int, row_text_as(m, f)) {
                        lemma_row_as_parts(t@, p as int, m, f);
                    }
                }
            }
            return None;
        },
    };
    let mut fields: Vec<Vec<char>> = Vec::new();
    let mut plains: Vec<bool> = Vec::new();
    let mut at: usize = a;
    proof {
        assert forall|m: MovieView, f: (bool, bool, bool)|
            form_ok(m, f) && holds_at(t@, p as int, row_text_as(m, f)) implies id == m.id && a == p
            + decimal(m.id as nat).len() by {
            lemma_row_as_parts(t@, p as int, m, f);
        }
    }
    while fields.len() < 3
        invariant
            p < a <= at <= t@.len(),
            fields@.len() <= 3,
            plains@.len() == fields@.len(),
            forall|k: int| 0 <= k < fields@.len() ==> (plains@[k] ==> plain_ok(#[trigger] fields@[k]@)),
            forall|m: MovieView, f: (bool, bool, bool)|
                form_ok(m, f) && holds_at(t@, p as int, row_text_as(m, f)) ==> ({
                    let a1 = p + decimal(m.id as nat).len();
                    let b = a1 + 1 + field_text(m.title, f.0).len();
                    let c = b + 1 + field_text(m.director, f.1).len();
                    let e = c + 1 + field_text(m.release_date, f.2).len();
                    &&& id == m.id
                    &&& a == a1
                    &&& (fields@.len() > 0 ==> fields@[0]@ == m.title && plains@[0] == f.0)
                    &&& (fields@.len() > 1 ==> fields@[1]@ == m.director && plains@[1] == f.1)
                    &&& (fields@.len() > 2 ==> fields@[2]@ == m.release_date && plains@[2] == f.2)
                    &&& at == (if fields@.len() == 0 {
                        a1
                    } else if fields@.len() == 1 {
                        b
                    } else if fields@.len() == 2 {
                        c
                    } else {
                        e
                    })
                }),
        decreases 3 - fields@.len(),
    {
        if at >= t.len() || t[at] != ',' {
            proof {
                assert forall|m: MovieView, f: (bool, bool, bool)|
                    !(form_ok(m, f) && holds_at(t@, p as int, row_text_as(m, f))) by {
                    if form_ok(m, f) && holds_at(t@, p as int, row_text_as(m, f)) {
                        lemma_row_as_parts(t@, p as int, m, f);
                    }
                }
            }
            return None;
        }
        match parse_field(t, at + 1) {
            Some((y, b, next)) => {
                let ghost before = fields@;
                let ghost before_plains = plains@;
                fields.push(y);
                plains.push(b);
                at = next;
                proof {
                    assert forall|m: MovieView, f: (bool, bool, bool)|
                        form_ok(m, f) && holds_at(t@, p as int, row_text_as(m, f)) implies ({
                        let a1 = p + decimal(m.id as nat).len();
                        let b = a1 + 1 + field_text(m.title, f.0).len();
                        let c = b + 1 + field_text(m.director, f.1).len();
                        let e = c + 1 + field_text(m.release_date, f.2).len();
                        &&& (fields@.len() > 0 ==> fields@[0]@ == m.title && plains@[0] == f.0)
                        &&& (fields@.len() > 1 ==> fields@[1]@ == m.director && plains@[1] == f.1)
                        &&& (fields@.len() > 2 ==> fields@[2]@ == m.release_date && plains@[2]
                            == f.2)
                        &&& at == (if fields@.len() == 0 {
                            a1
                        } else if fields@.len() == 1 {
                            b
                        } else if fields@.len() == 2 {
                            c
                        } else {
                            e
                        })
                    }) by {
                        lemma_row_as_parts(t@, p as int, m, f);
                        assert(fields@.drop_last() == before);
                        assert(plains@.drop_last() == before_plains);
                    }
                }
            },
            None => {
                proof {
                    assert forall|m: MovieView, f: (bool, bool, bool)|
                        !(form_ok(m, f) && holds_at(t@, p as int, row_text_as(m, f))) by {
                        if form_ok(m, f) && holds_at(t@, p as int, row_text_as(m, f)) {
                            lemma_row_as_parts(t@, p as int, m, f);
                        }
                    }
                }
                return None;
            },
        }
    }
    if at >= t.len() || t[at] != '\n' {
        proof {
            assert forall|m: MovieView, f: (bool, bool, bool)|
                !(form_ok(m, f) && holds_at(t@, p as int, row_text_as(m, f))) by {
                if form_ok(m, f) && holds_at(t@, p as int, row_text_as(m, f)) {
                    lemma_row_as_parts(t@, p as int, m, f);
                }
            }
        }
        return None;
    }
    let movie = Movie::new(
        id,
        string_of(&fields[0]),
        string_of(&fields[1]),
        string_of(&fields[2]),
    );
    let form = (plains[0], plains[1], plains[2]);
    proof {
        assert forall|m: MovieView, f: (bool, bool, bool)|
            form_ok(m, f) && holds_at(t@, p as int, row_text_as(m, f)) implies movie@ == m && form
            == f && at + 1 == p + row_text_as(m, f).len() by {
            lemma_row_as_parts(t@, p as int, m, f);
        }
        assert(plain_ok(fields@[0]@) || !form.0);
        assert(plain_ok(fields@[1]@) || !form.1);
        assert(plain_ok(fields@[2]@) || !form.2);
    }
    Some((movie, form, at + 1))
}

/// Relies on str::chars: the characters of `s`, in order.
#[verifier::external_body]
fn chars_of(s: &str) -> (r: Vec<char>)
    ensures
        r@ == s@,
{
    s.chars().collect()
}

/// Relies on String's FromIterator<&char>: the string of the characters `v`.
#[verifier::external_body]
fn string_of(v: &Vec<char>) -> (r: String)
    ensures
        r@ == v@,
{
    v.iter().collect()
}

fn digit_char_of(d: u32) -> (c: char)
    requires
        d < 10,
    ensures
        c == digit_char(d as int),
{
    if d == 0 {
        '0'
    } else if d == 1 {
        '1'
    } else if d == 2 {
        '2'
    } else if d == 3 {
        '3'
    } else if d == 4 {
        '4'
    } else if d == 5 {
        '5'
    } else if d == 6 {
        '6'
    } else if d == 7 {
        '7'
    } else if d == 8 {
        '8'
    } else {
        '9'
    }
}

fn push_decimal(out: &mut Vec<char>, n: u32)
    ensures
        final(out)@ == old(out)@ + decimal(n as nat),
    decreases n,
{
    if n >= 10 {
        push_decimal(out, n / 10);
    }
    out.push(digit_char_of(n % 10));
    proof {
        if n >= 10 {
            assert(old(out)@ + decimal(n as nat) =~= old(out)@ + decimal((n / 10) as nat) + seq![
                digit_char((n % 10) as int),
            ]);
        } else {
            assert(old(out)@ + decimal(n as nat) =~= old(out)@.push(digit_char((n % 10) as int)));
        }
    }
}

fn push_quoted(out: &mut Vec<char>, s: &Vec<char>)
    ensures
        final(out)@ == old(out)@ + quoted(s@),
{
    out.push('"');
    let mut i: usize = 0;
    while i < s.len()
        invariant
            i <= s@.len(),
            out@ == old(out)@ + seq!['"'] + escaped(s@.subrange(0, i as int)),
        decreases s@.len() - i,
    {
        let c = s[i];
        out.push(c);
        if c == '"' {
            out.push('"');
        }
        proof {
            let a = s@.subrange(0, i + 1);
            assert(a.drop_last() =~= s@.subrange(0, i as int));
            assert(escaped(a) == escaped(s@.subrange(0, i as int)) + escape_char(c));
        }
        i += 1;
    }
    out.push('"');
    proof {
        assert(s@.subrange(0, s@.len() as int) =~= s@);
        assert(final(out)@ =~= old(out)@ + quoted(s@));
    }
}

fn push_row(out: &mut Vec<char>, m: &Movie)
    ensures
        final(out)@ == old(out)@ + row_text(m@),
{
    push_decimal(out, m.id);
    out.push(',');
    push_quoted(out, &chars_of(m.title.as_str()));
    out.push(',');
    push_quoted(out, &chars_of(m.director.as_str()));
    out.push(',');
    push_quoted(out, &chars_of(m.release_date.as_str()));
    out.push('\n');
    proof {
        assert(final(out)@ =~= old(out)@ + row_text(m@));
    }
}

/// The characters of the snapshot of `movies`.
pub fn encode_chars(movies: &Vec<Movie>) -> (r: Vec<char>)
    ensures
        r@ == snapshot_text(views(movies@)),
{
    let mut out = chars_of("id,title,director,release_date\n");
    let mut i: usize = 0;
    while i < movies.len()
        invariant
            i <= movies@.len(),
            out@ == snapshot_text(views(movies@.subrange(0, i as int))),
        decreases movies@.len() - i,
    {
        push_row(&mut out, &movies[i]);
        proof {
            let a = views(movies@.subrange(0, i + 1));
            assert(a.drop_last() =~= views(movies@.subrange(0, i as int)));
            assert(a.last() == movies@[i as int]@);
            assert(out@ =~= snapshot_text(a));
        }
        i += 1;
    }
    proof {
        assert(movies@.subrange(0, movies@.len() as int) =~= movies@);
    }
    out
}

/// The snapshot text of `movies`: a header line, then one line per record
/// in order, each text field quoted.
pub fn encode(movies: &Vec<Movie>) -> (r: String)
    ensures
        r@ == snapshot_text(views(movies@)),
{
    string_of(&encode_chars(movies))
}

proof fn lemma_snapshot_row(s: Seq<MovieView>, k: int)
    requires
        0 <= k < s.len(),
    ensures
        holds_at(
            snapshot_text(s),
            (header_text().len() + rows_text(s.subrange(0, k)).len()) as int,
            row_text(s[k]),
        ),
        rows_text(s.subrange(0, k + 1)) == rows_text(s.subrange(0, k)) + row_text(s[k]),
{
    let pre = s.subrange(0, k);
    let one = seq![s[k]];
    let post = s.subrange(k + 1, s.len() as int);
    assert(pre + one + post =~= s);
    assert(s.subrange(0, k + 1) =~= pre + one);
    assert(one.drop_last() =~= Seq::<MovieView>::empty());
    assert(rows_text(one.drop_last()) == Seq::<char>::empty());
    assert(Seq::<char>::empty() + row_text(s[k]) =~= row_text(s[k]));
    assert(rows_text(one) =~= row_text(s[k]));
    lemma_rows_concat(pre, one);
    lemma_rows_concat(pre + one, post);
    let t = snapshot_text(s);
    let h = header_text() + rows_text(pre);
    assert(t =~= h + row_text(s[k]) + rows_text(post));
    assert(holds_at(t, 0, t)) by {
        assert(t.subrange(0, t.len() as int) =~= t);
    }
    lemma_split(t, 0, h + row_text(s[k]), rows_text(post));
    lemma_split(t, 0, h, row_text(s[k]));
}

proof fn lemma_decimal_unique(t: Seq<char>, p: int, n1: u32, n2: u32)
    requires
        decimal_at(t, p, n1),
        decimal_at(t, p, n2),
    ensures
        n1 == n2,
{
    let d1 = decimal(n1 as nat);
    let d2 = decimal(n2 as nat);
    lemma_decimal(n1 as nat);
    lemma_decimal(n2 as nat);
    if d1.len() < d2.len() {
        assert(t[p + d1.len()] == d2[d1.len() as int]);
    } else if d2.len() < d1.len() {
        assert(t[p + d2.len()] == d1[d2.len() as int]);
    } else {
        assert(d1 =~= d2);
    }
}

proof fn lemma_quoted_unique(t: Seq<char>, p: int, x1: Seq<char>, x2: Seq<char>, k: int)
    requires
        quoted_at(t, p, x1),
        quoted_at(t, p, x2),
        0 <= k <= x1.len(),
        k <= x2.len(),
        x1.subrange(0, k) == x2.subrange(0, k),
    ensures
        x1 == x2,
    decreases x1.len() - k,
{
    let done = x1.subrange(0, k);
    let i = p + 1 + escaped(done).len();
    lemma_quoted_step(t, p, x1, done, i);
    lemma_quoted_step(t, p, x2, done, i);
    if k == x1.len() && k == x2.len() {
        assert(x1 =~= done);
        assert(x2 =~= done);
    } else if k < x1.len() && k < x2.len() {
        assert(x1[k] == x2[k]);
        assert(x1.subrange(0, k + 1) =~= x1.subrange(0, k).push(x1[k]));
        assert(x2.subrange(0, k + 1) =~= x2.subrange(0, k).push(x2[k]));
        lemma_quoted_unique(t, p, x1, x2, k + 1);
    }
}

proof fn lemma_row_unique(t: Seq<char>, p: int, m1: MovieView, m2: MovieView)
    requires
        holds_at(t, p, row_text(m1)),
        holds_at(t, p, row_text(m2)),
    ensures
        m1 == m2,
{
    lemma_row_parts(t, p, m1);
    lemma_row_parts(t, p, m2);
    lemma_decimal_unique(t, p, m1.id, m2.id);
    let a = p + decimal(m1.id as nat).len() + 1;
    assert(m1.title.subrange(0, 0) =~= m2.title.subrange(0, 0));
    lemma_quoted_unique(t, a, m1.title, m2.title, 0);
    let b = a + quoted(m1.title).len() + 1;
    assert(m1.director.subrange(0, 0) =~= m2.director.subrange(0, 0));
    lemma_quoted_unique(t, b, m1.director, m2.director, 0);
    let c = b + quoted(m1.director).len() + 1;
    assert(m1.release_date.subrange(0, 0) =~= m2.release_date.subrange(0, 0));
    lemma_quoted_unique(t, c, m1.release_date, m2.release_date, 0);
}

proof fn lemma_rows_unique(s1: Seq<MovieView>, s2: Seq<MovieView>, k: int)
    requires
        snapshot_text(s1) == snapshot_text(s2),
        0 <= k <= s1.len(),
        k <= s2.len(),
        s1.subrange(0, k) == s2.subrange(0, k),
    ensures
        s1 == s2,
    decreases s1.len() - k,
{
    let t = snapshot_text(s1);
    if k < s1.len() && k < s2.len() {
        lemma_snapshot_row(s1, k);
        lemma_snapshot_row(s2, k);
        let at = (header_text().len() + rows_text(s1.subrange(0, k)).len()) as int;
        lemma_row_unique(t, at, s1[k], s2[k]);
        assert(s1.subrange(0, k + 1) =~= s1.subrange(0, k).push(s1[k]));
        assert(s2.subrange(0, k + 1) =~= s2.subrange(0, k).push(s2[k]));
        lemma_rows_unique(s1, s2, k + 1);
    } else if k < s2.len() {
        assert(s1.subrange(0, k) =~= s1);
        lemma_snapshot_row(s2, k);
        lemma_decimal(s2[k].id as nat);
    } else if k < s1.len() {
        assert(s2.subrange(0, k) =~= s2);
        lemma_snapshot_row(s1, k);
        lemma_decimal(s1[k].id as nat);
    } else {
        assert(s1 =~= s1.subrange(0, k));
        assert(s2 =~= s2.subrange(0, k));
    }
}

/// Two record sequences with the same snapshot text are the same: a
/// snapshot determines the records it was written from, in order.
pub proof fn lemma_snapshot_determines_records(s1: Seq<MovieView>, s2: Seq<MovieView>)
    requires
        snapshot_text(s1) == snapshot_text(s2),
    ensures
        s1 == s2,
{
    assert(s1.subrange(0, 0) =~= s2.subrange(0, 0));
    lemma_rows_unique(s1, s2, 0);
}

/// Whether two character sequences are equal.
fn same_chars(a: &Vec<char>, b: &Vec<char>) -> (r: bool)
    ensures
        r == (a@ == b@),
{
    if a.len() != b.len() {
        return false;
    }
    let mut i: usize = 0;
    while i < a.len()
        invariant
            a@.len() == b@.len(),
            i <= a@.len(),
            forall|j: int| 0 <= j < i ==> a@[j] == b@[j],
        decreases a@.len() - i,
    {
        if a[i] != b[i] {
            return false;
        }
        i += 1;
    }
    proof {
        assert(a@ =~= b@);
    }
    true
}


fn push_field(out: &mut Vec<char>, x: &Vec<char>, plain: bool)
    ensures
        final(out)@ == old(out)@ + field_text(x@, plain),
{
    if plain {
        let mut i: usize = 0;
        while i < x.len()
            invariant
                i <= x@.len(),
                out@ == old(out)@ + x@.subrange(0, i as int),
            decreases x@.len() - i,
        {
            out.push(x[i]);
            i += 1;
            proof {
                assert(out@ =~= old(out)@ + x@.subrange(0, i as int));
            }
        }
        proof {
            assert(x@.subrange(0, x@.len() as int) =~= x@);
        }
    } else {
        push_quoted(out, x);
    }
}

fn push_row_as(out: &mut Vec<char>, m: &Movie, f: (bool, bool, bool))
    ensures
        final(out)@ == old(out)@ + row_text_as(m@, f),
{
    push_decimal(out, m.id);
    out.push(',');
    push_field(out, &chars_of(m.title.as_str()), f.0);
    out.push(',');
    push_field(out, &chars_of(m.director.as_str()), f.1);
    out.push(',');
    push_field(out, &chars_of(m.release_date.as_str()), f.2);
    out.push('\n');
    proof {
        assert(final(out)@ =~= old(out)@ + row_text_as(m@, f));
    }
}

/// The characters of a snapshot of `movies`, with each record's text fields
/// written plain or quoted as `forms` says.
pub fn encode_chars_as(movies: &Vec<Movie>, forms: &Vec<(bool, bool, bool)>) -> (r: Vec<char>)
    requires
        forms@.len() == movies@.len(),
    ensures
        r@ == snapshot_text_as(views(movies@), forms@),
{
    let mut out = chars_of("id,title,director,release_date\n");
    let mut i: usize = 0;
    while i < movies.len()
        invariant
            forms@.len() == movies@.len(),
            i <= movies@.len(),
            out@ == snapshot_text_as(
                views(movies@.subrange(0, i as int)),
                forms@.subrange(0, i as int),
            ),
        decreases movies@.len() - i,
    {
        push_row_as(&mut out, &movies[i], forms[i]);
        proof {
            let a = views(movies@.subrange(0, i + 1));
            let fa = forms@.subrange(0, i + 1);
            assert(a.drop_last() =~= views(movies@.subrange(0, i as int)));
            assert(fa.drop_last() =~= forms@.subrange(0, i as int));
            assert(a.last() == movies@[i as int]@);
            assert(out@ =~= snapshot_text_as(a, fa));
        }
        i += 1;
    }
    proof {
        assert(movies@.subrange(0, movies@.len() as int) =~= movies@);
        assert(forms@.subrange(0, forms@.len() as int) =~= forms@);
    }
    out
}

proof fn lemma_snapshot_row_as(s: Seq<MovieView>, fs: Seq<(bool, bool, bool)>, k: int)
    requires
        fs.len() == s.len(),
        0 <= k < s.len(),
    ensures
        holds_at(
            snapshot_text_as(s, fs),
            (header_text().len() + rows_text_as(s.subrange(0, k), fs.subrange(0, k)).len()) as int,
            row_text_as(s[k], fs[k]),
        ),
        rows_text_as(s.subrange(0, k + 1), fs.subrange(0, k + 1)) == rows_text_as(
            s.subrange(0, k),
            fs.subrange(0, k),
        ) + row_text_as(s[k], fs[k]),
{
    let pre = s.subrange(0, k);
    let fpre = fs.subrange(0, k);
    let one = seq![s[k]];
    let fone = seq![fs[k]];
    let post = s.subrange(k + 1, s.len() as int);
    let fpost = fs.subrange(k + 1, fs.len() as int);
    assert(pre + one + post =~= s);
    assert(fpre + fone + fpost =~= fs);
    assert(s.subrange(0, k + 1) =~= pre + one);
    assert(fs.subrange(0, k + 1) =~= fpre + fone);
    assert(one.drop_last() =~= Seq::<MovieView>::empty());
    assert(rows_text_as(one.drop_last(), fone.drop_last()) == Seq::<char>::empty());
    assert(Seq::<char>::empty() + row_text_as(s[k], fs[k]) =~= row_text_as(s[k], fs[k]));
    assert(rows_text_as(one, fone) =~= row_text_as(s[k], fs[k]));
    lemma_rows_as_concat(pre, fpre, one, fone);
    lemma_rows_as_concat(pre + one, fpre + fone, post, fpost);
    let t = snapshot_text_as(s, fs);
    let h = header_text() + rows_text_as(pre, fpre);
    assert(t =~= h + row_text_as(s[k], fs[k]) + rows_text_as(post, fpost));
    assert(holds_at(t, 0, t)) by {
        assert(t.subrange(0, t.len() as int) =~= t);
    }
    lemma_split(t, 0, h + row_text_as(s[k], fs[k]), rows_text_as(post, fpost));
    lemma_split(t, 0, h, row_text_as(s[k], fs[k]));
}

fn decode_forms(text: &str) -> (r: Result<(Vec<Movie>, Vec<(bool, bool, bool)>), MovieError>)
    ensures
        r matches Ok((v, f)) ==> forms_ok(views(v@), f@) && snapshot_text_as(views(v@), f@)
            == text@,
        r matches Err(e) ==> e == MovieError::Format,
        forall|s: Seq<MovieView>, fs: Seq<(bool, bool, bool)>|
            forms_ok(s, fs) && snapshot_text_as(s, fs) == text@ ==> (r matches Ok((v, f)) && views(
                v@,
            ) == s),
{
    let t = chars_of(text);
    let h = chars_of("id,title,director,release_date\n");
    if t.len() < h.len() {
        return Err(MovieError::Format);
    }
    let mut j: usize = 0;
    while j < h.len()
        invariant
            t@ == text@,
            h@ == header_text(),
            h@.len() <= t@.len(),
            j <= h@.len(),
            forall|i: int| 0 <= i < j ==> t@[i] == h@[i],
        decreases h@.len() - j,
    {
        if t[j] != h[j] {
            proof {
                assert forall|s: Seq<MovieView>, fs: Seq<(bool, bool, bool)>|
                    snapshot_text_as(s, fs) != text@ by {
                    if snapshot_text_as(s, fs) == text@ {
                        assert(t@[j as int] == snapshot_text_as(s, fs)[j as int]);
                        assert(snapshot_text_as(s, fs)[j as int] == header_text()[j as int]);
                    }
                }
            }
            return Err(MovieError::Format);
        }
        j += 1;
    }
    let mut v: Vec<Movie> = Vec::new();
    let mut forms: Vec<(bool, bool, bool)> = Vec::new();
    let mut p: usize = h.len();
    proof {
        assert forall|s: Seq<MovieView>, fs: Seq<(bool, bool, bool)>|
            forms_ok(s, fs) && snapshot_text_as(s, fs) == text@ implies views(v@) == s.subrange(
            0,
            0,
        ) && forms@ == fs.subrange(0, 0) && p == header_text().len() + rows_text_as(
            s.subrange(0, 0),
            fs.subrange(0, 0),
        ).len() by {
            assert(s.subrange(0, 0) =~= Seq::<MovieView>::empty());
            assert(fs.subrange(0, 0) =~= forms@);
            assert(views(v@) =~= Seq::<MovieView>::empty());
        }
    }
    while p < t.len()
        invariant
            t@ == text@,
            h@.len() <= p <= t@.len(),
            forms@.len() == v@.len(),
            forall|k: int| 0 <= k < v@.len() ==> form_ok(#[trigger] v@[k]@, forms@[k]),
            forall|s: Seq<MovieView>, fs: Seq<(bool, bool, bool)>|
                forms_ok(s, fs) && snapshot_text_as(s, fs) == text@ ==> (v@.len() <= s.len()
                    && views(v@) == s.subrange(0, v@.len() as int) && forms@ == fs.subrange(
                    0,
                    v@.len() as int,
                ) && p == header_text().len() + rows_text_as(
                    s.subrange(0, v@.len() as int),
                    fs.subrange(0, v@.len() as int),
                ).len()),
        decreases t@.len() - p,
    {
        match parse_row_as(&t, p) {
            Some((m, g, q)) => {
                let ghost before = v@;
                let ghost before_forms = forms@;
                proof {
                    assert forall|s: Seq<MovieView>, fs: Seq<(bool, bool, bool)>|
                        forms_ok(s, fs) && snapshot_text_as(s, fs) == text@ implies before.len()
                        < s.len() && m@ == s[before.len() as int] && g == fs[before.len() as int]
                        && q == p + row_text_as(s[before.len() as int], fs[before.len() as int]).len()
                        && rows_text_as(
                        s.subrange(0, before.len() + 1 as int),
                        fs.subrange(0, before.len() + 1 as int),
                    ) == rows_text_as(
                        s.subrange(0, before.len() as int),
                        fs.subrange(0, before.len() as int),
                    ) + row_text_as(s[before.len() as int], fs[before.len() as int]) by {
                        if before.len() == s.len() {
                            assert(s.subrange(0, s.len() as int) =~= s);
                            assert(fs.subrange(0, fs.len() as int) =~= fs);
                        }
                        lemma_snapshot_row_as(s, fs, before.len() as int);
                    }
                }
                v.push(m);
                forms.push(g);
                p = q;
                proof {
                    assert forall|k: int| 0 <= k < v@.len() implies form_ok(
                        #[trigger] v@[k]@,
                        forms@[k],
                    ) by {
                        if k < before.len() {
                            assert(v@[k] == before[k]);
                            assert(forms@[k] == before_forms[k]);
                        }
                    }
                    assert forall|s: Seq<MovieView>, fs: Seq<(bool, bool, bool)>|
                        forms_ok(s, fs) && snapshot_text_as(s, fs) == text@ implies views(v@)
                        == s.subrange(0, v@.len() as int) && forms@ == fs.subrange(
                        0,
                        v@.len() as int,
                    ) by {
                        assert(views(v@) =~= views(before).push(m@));
                        assert(s.subrange(0, v@.len() as int) =~= s.subrange(
                            0,
                            before.len() as int,
                        ).push(s[before.len() as int]));
                        assert(fs.subrange(0, v@.len() as int) =~= fs.subrange(
                            0,
                            before.len() as int,
                        ).push(fs[before.len() as int]));
                    }
                }
            },
            None => {
                proof {
                    assert forall|s: Seq<MovieView>, fs: Seq<(bool, bool, bool)>|
                        !(forms_ok(s, fs) && snapshot_text_as(s, fs) == text@) by {
                        if forms_ok(s, fs) && snapshot_text_as(s, fs) == text@ {
                            if v@.len() == s.len() {
                                assert(s.subrange(0, s.len() as int) =~= s);
                                assert(fs.subrange(0, fs.len() as int) =~= fs);
                            } else {
                                lemma_snapshot_row_as(s, fs, v@.len() as int);
                            }
                        }
                    }
                }
                return Err(MovieError::Format);
            },
        }
    }
    proof {
        assert forall|s: Seq<MovieView>, fs: Seq<(bool, bool, bool)>|
            forms_ok(s, fs) && snapshot_text_as(s, fs) == text@ implies views(v@) == s && forms@
            == fs by {
            if v@.len() < s.len() {
                lemma_snapshot_row_as(s, fs, v@.len() as int);
                lemma_decimal(s[v@.len() as int].id as nat);
            }
            assert(s.subrange(0, s.len() as int) =~= s);
            assert(fs.subrange(0, fs.len() as int) =~= fs);
        }
        assert forall|s: Seq<MovieView>| snapshot_text(s) == text@ implies forms_ok(
            s,
            all_quoted(s.len()),
        ) && snapshot_text_as(s, all_quoted(s.len())) == text@ by {
            lemma_all_quoted(s);
        }
    }
    let e = encode_chars_as(&v, &forms);
    if same_chars(&e, &t) {
        proof {
            assert forall|k: int| 0 <= k < views(v@).len() implies form_ok(
                views(v@)[k],
                forms@[k],
            ) by {
                assert(views(v@)[k] == v@[k]@);
            }
        }
        Ok((v, forms))
    } else {
        Err(MovieError::Format)
    }
}

/// The records of a snapshot text: the header line, then per record its
/// decimal id and three text fields, separated by commas and ended by a line
/// break. A text field is quoted, with its quotes doubled, or written as it is
/// where it holds no comma, quote or line break. Exactly such texts are
/// accepted, and each gives back the records it was written from; any other
/// text is a `Format` error.
pub fn decode(text: &str) -> (r: Result<Vec<Movie>, MovieError>)
    ensures
        r is Ok ==> written_as(views(r->Ok_0@), text@),
        r matches Err(e) ==> e == MovieError::Format,
        forall|s: Seq<MovieView>, fs: Seq<(bool, bool, bool)>|
            forms_ok(s, fs) && snapshot_text_as(s, fs) == text@ ==> (r matches Ok(v) && views(v@)
                == s),
        forall|s: Seq<MovieView>| snapshot_text(s) == text@ ==> (r matches Ok(v) && views(v@) == s),
{
    match decode_forms(text) {
        Ok((v, forms)) => {
            proof {
                assert forall|s: Seq<MovieView>| snapshot_text(s) == text@ implies views(v@)
                    == s by {
                    lemma_all_quoted(s);
                }
                lemma_written_as(views(v@), forms@, text@);
            }
            Ok(v)
        },
        Err(e) => {
            proof {
                assert forall|s: Seq<MovieView>| snapshot_text(s) != text@ by {
                    lemma_all_quoted(s);
                }
            }
            Err(e)
        },
    }
}

} // verus!
