//! The line-oriented view of the decrypted plaintext.
//!
//! The record stream is a text whose meaning is carried by its lines. A
//! line break is a single `'\n'`; a final line break does not open an
//! empty last line. `line_split` is the mathematical splitting, `unsplit`
//! the canonical serialization (every line terminated by `'\n'`), and the
//! executable `split_lines`, `join_lines` and `trim` are proved against
//! them.

use vstd::prelude::*;

verus! {

/// Whitespace as the trim rule of the vault understands it.
pub open spec fn is_space(c: char) -> bool {
    c == ' ' || c == '\t' || c == '\r' || c == '\n'
}

/// No line break occurs in `l`: `l` can stand as one line of a stream.
pub open spec fn no_newline(l: Seq<char>) -> bool {
    forall|i: int| 0 <= i < l.len() ==> l[i] != '\n'
}

/// The lines of `s`, split at `'\n'`. A trailing line break yields no
/// trailing empty line, so `line_split` of both `"a\nb"` and `"a\nb\n"`
/// is `["a", "b"]`, and `line_split` of the empty text is empty.
pub open spec fn line_split(s: Seq<char>) -> Seq<Seq<char>>
    decreases s.len(),
{
    if s.len() == 0 {
        Seq::empty()
    } else if s[0] == '\n' {
        seq![Seq::empty()] + line_split(s.skip(1))
    } else {
        let r = line_split(s.skip(1));
        if r.len() == 0 {
            seq![seq![s[0]]]
        } else {
            seq![seq![s[0]] + r[0]] + r.skip(1)
        }
    }
}

/// The lines `rest`, with the partial first line `cur` prepended to the
/// first of them; `cur` alone if `rest` is empty and `cur` is not.
pub open spec fn attach_first(cur: Seq<char>, rest: Seq<Seq<char>>) -> Seq<Seq<char>> {
    if rest.len() == 0 {
        if cur.len() == 0 {
            Seq::empty()
        } else {
            seq![cur]
        }
    } else {
        seq![cur + rest[0]] + rest.skip(1)
    }
}

/// The canonical serialization of a stream of lines: each line followed
/// by one `'\n'`.
pub open spec fn unsplit(ls: Seq<Seq<char>>) -> Seq<char>
    decreases ls.len(),
{
    if ls.len() == 0 {
        Seq::empty()
    } else {
        ls[0] + seq!['\n'] + unsplit(ls.skip(1))
    }
}

proof fn lemma_attach_empty(rest: Seq<Seq<char>>)
    ensures
        attach_first(Seq::empty(), rest) == rest,
{
    if rest.len() == 0 {
        assert(attach_first(Seq::<char>::empty(), rest) =~~= rest);
    } else {
        assert(Seq::<char>::empty() + rest[0] =~= rest[0]);
        assert(attach_first(Seq::<char>::empty(), rest) =~~= rest);
    }
}

proof fn lemma_attach_step_char(cur: Seq<char>, c: char, t: Seq<char>)
    requires
        c != '\n',
    ensures
        attach_first(cur, line_split(seq![c] + t)) == attach_first(cur.push(c), line_split(t)),
{
    let s = seq![c] + t;
    assert(s.skip(1) =~= t);
    assert(s[0] == c);
    let r = line_split(t);
    if r.len() == 0 {
        assert(line_split(s) =~~= seq![seq![c]]);
        assert(seq![seq![c]].skip(1) =~= Seq::<Seq<char>>::empty());
        assert(cur + seq![c] =~= cur.push(c));
        assert(attach_first(cur, line_split(s)) =~~= seq![cur.push(c)]);
        assert(attach_first(cur.push(c), r) =~~= seq![cur.push(c)]);
    } else {
        assert(line_split(s) =~~= seq![seq![c] + r[0]] + r.skip(1));
        let big = seq![seq![c] + r[0]] + r.skip(1);
        assert(big.len() > 0);
        assert(big[0] =~= seq![c] + r[0]);
        assert(cur + (seq![c] + r[0]) =~= cur.push(c) + r[0]);
        assert(big.skip(1) =~= r.skip(1));
        assert(attach_first(cur, big) =~~= seq![cur.push(c) + r[0]] + r.skip(1));
        assert(attach_first(cur.push(c), r) =~~= seq![cur.push(c) + r[0]] + r.skip(1));
    }
}

proof fn lemma_attach_step_newline(cur: Seq<char>, t: Seq<char>)
    ensures
        attach_first(cur, line_split(seq!['\n'] + t)) == seq![cur] + line_split(t),
{
    let s = seq!['\n'] + t;
    assert(s.skip(1) =~= t);
    let r = line_split(t);
    assert(line_split(s) =~~= seq![Seq::<char>::empty()] + r);
    let big = seq![Seq::<char>::empty()] + r;
    assert(big.len() > 0);
    assert(big[0] =~= Seq::<char>::empty());
    assert(cur + big[0] =~= cur);
    assert(big.skip(1) =~= r);
    assert(attach_first(cur, big) =~~= seq![cur] + r);
}

/// Every line that `line_split` yields is free of line breaks.
pub proof fn lemma_line_split_no_newline(s: Seq<char>)
    ensures
        forall|k: int|
            0 <= k < line_split(s).len() ==> #[trigger] no_newline(line_split(s)[k]),
    decreases s.len(),
{
    if s.len() == 0 {
    } else if s[0] == '\n' {
        lemma_line_split_no_newline(s.skip(1));
        assert forall|k: int| 0 <= k < line_split(s).len() implies #[trigger] no_newline(
            line_split(s)[k],
        ) by {
            if k > 0 {
                assert(line_split(s)[k] == line_split(s.skip(1))[k - 1]);
            }
        }
    } else {
        lemma_line_split_no_newline(s.skip(1));
        let r = line_split(s.skip(1));
        if r.len() == 0 {
        } else {
            assert(no_newline(r[0]));
            assert(no_newline(seq![s[0]] + r[0]));
            assert forall|k: int| 0 <= k < line_split(s).len() implies #[trigger] no_newline(
                line_split(s)[k],
            ) by {
                if k > 0 {
                    assert(line_split(s)[k] == r.skip(1)[k - 1]);
                    assert(r.skip(1)[k - 1] == r[k]);
                }
            }
        }
    }
}

proof fn lemma_line_split_line_prefix(l: Seq<char>, t: Seq<char>)
    requires
        no_newline(l),
    ensures
        line_split(l + seq!['\n'] + t) == seq![l] + line_split(t),
    decreases l.len(),
{
    if l.len() == 0 {
        assert(l =~= Seq::<char>::empty());
        assert(l + seq!['\n'] + t =~= seq!['\n'] + t);
        let s = seq!['\n'] + t;
        assert(s.skip(1) =~= t);
        assert(line_split(s) =~~= seq![Seq::<char>::empty()] + line_split(t));
        assert(seq![l] + line_split(t) =~~= seq![Seq::<char>::empty()] + line_split(t));
    } else {
        let s = l + seq!['\n'] + t;
        assert(s.len() > 0 && s[0] == l[0] && l[0] != '\n');
        assert(s.skip(1) =~= l.skip(1) + seq!['\n'] + t);
        lemma_line_split_line_prefix(l.skip(1), t);
        let r = line_split(s.skip(1));
        assert(r =~= seq![l.skip(1)] + line_split(t));
        assert(r.len() > 0);
        assert(r[0] == l.skip(1));
        assert(seq![s[0]] + r[0] =~= l);
        assert(r.skip(1) =~= line_split(t));
        assert(line_split(s) =~= seq![l] + line_split(t));
    }
}

/// Serializing a stream of break-free lines and splitting it again gives
/// the stream back: the round trip of the line codec.
pub proof fn lemma_line_split_of_unsplit(ls: Seq<Seq<char>>)
    requires
        forall|k: int| 0 <= k < ls.len() ==> no_newline(#[trigger] ls[k]),
    ensures
        line_split(unsplit(ls)) == ls,
    decreases ls.len(),
{
    if ls.len() == 0 {
    } else {
        lemma_line_split_of_unsplit(ls.skip(1));
        lemma_line_split_line_prefix(ls[0], unsplit(ls.skip(1)));
        assert(line_split(unsplit(ls)) =~= seq![ls[0]] + line_split(unsplit(ls.skip(1))));
        assert(seq![ls[0]] + ls.skip(1) =~= ls);
    }
}

/// Splits `s` into its lines.
pub fn split_lines(s: &str) -> (r: Vec<String>)
    ensures
        r.deep_view() == line_split(s@),
        forall|k: int| 0 <= k < r.deep_view().len() ==> no_newline(#[trigger] r.deep_view()[k]),
{
    let n = s.unicode_len();
    let mut done: Vec<String> = Vec::new();
    let mut st: usize = 0;
    let mut i: usize = 0;
    proof {
        assert(s@.skip(0) =~= s@);
        assert(s@.subrange(0, 0) =~= Seq::<char>::empty());
        lemma_attach_empty(line_split(s@));
        assert(done.deep_view() =~~= Seq::<Seq<char>>::empty());
        assert(Seq::<Seq<char>>::empty() + line_split(s@) =~~= line_split(s@));
    }
    while i < n
        invariant
            0 <= st <= i <= n,
            n == s@.len(),
            no_newline(s@.subrange(st as int, i as int)),
            line_split(s@) == done.deep_view() + attach_first(
                s@.subrange(st as int, i as int),
                line_split(s@.skip(i as int)),
            ),
        decreases n - i,
    {
        let c = s.get_char(i);
        proof {
            assert(s@.skip(i as int) =~= seq![s@[i as int]] + s@.skip(i as int + 1));
        }
        if c == '\n' {
            let line = s.substring_char(st, i).to_owned();
            let ghost prev = done.deep_view();
            let ghost cur = s@.subrange(st as int, i as int);
            proof {
                lemma_attach_step_newline(cur, s@.skip(i as int + 1));
                lemma_attach_empty(line_split(s@.skip(i as int + 1)));
            }
            done.push(line);
            proof {
                let x = line_split(s@.skip(i as int + 1));
                assert(done.deep_view() =~~= prev.push(cur));
                assert(prev + (seq![cur] + x) =~~= prev.push(cur) + x);
                assert(s@.subrange(i as int + 1, i as int + 1) =~= Seq::<char>::empty());
            }
            st = i + 1;
        } else {
            proof {
                let cur = s@.subrange(st as int, i as int);
                lemma_attach_step_char(cur, s@[i as int], s@.skip(i as int + 1));
                assert(s@.subrange(st as int, i as int + 1) =~= cur.push(s@[i as int]));
            }
        }
        i = i + 1;
    }
    proof {
        assert(s@.skip(n as int) =~= Seq::<char>::empty());
    }
    if st < n {
        let line = s.substring_char(st, n).to_owned();
        let ghost prev = done.deep_view();
        proof {
            assert(line_split(s@) =~~= prev.push(line@));
        }
        done.push(line);
        proof {
            assert(done.deep_view() =~~= prev.push(line@));
        }
    } else {
        proof {
            assert(s@.subrange(st as int, n as int) =~= Seq::<char>::empty());
        }
    }
    proof {
        lemma_line_split_no_newline(s@);
    }
    done
}

/// Serializes lines into one text, each line closed by `'\n'`.
pub fn join_lines(lines: &Vec<String>) -> (r: String)
    ensures
        r@ == unsplit(lines.deep_view()),
{
    let ghost ls = lines.deep_view();
    let mut acc = String::new();
    let mut i: usize = 0;
    proof {
        reveal_strlit("\n");
        assert(ls.skip(0) =~= ls);
    }
    while i < lines.len()
        invariant
            0 <= i <= lines.len(),
            ls == lines.deep_view(),
            "\n"@ == seq!['\n'],
            unsplit(ls) == acc@ + unsplit(ls.skip(i as int)),
        decreases lines.len() - i,
    {
        acc.append(lines[i].as_str());
        acc.append("\n");
        proof {
            assert(ls.skip(i as int) =~= seq![ls[i as int]] + ls.skip(i as int + 1));
            assert((seq![ls[i as int]] + ls.skip(i as int + 1)).skip(1) =~= ls.skip(i as int + 1));
            assert(unsplit(ls.skip(i as int)) =~= ls[i as int] + seq!['\n'] + unsplit(
                ls.skip(i as int + 1),
            ));
        }
        i = i + 1;
    }
    proof {
        assert(ls.skip(lines.len() as int) =~= Seq::<Seq<char>>::empty());
        assert(acc@ =~= unsplit(ls));
    }
    acc
}

/// What is left of `s` after the leading whitespace goes.
pub open spec fn trim_front(s: Seq<char>) -> Seq<char>
    decreases s.len(),
{
    if s.len() > 0 && is_space(s[0]) {
        trim_front(s.skip(1))
    } else {
        s
    }
}

/// What is left of `s` after the trailing whitespace goes.
pub open spec fn trim_back(s: Seq<char>) -> Seq<char>
    decreases s.len(),
{
    if s.len() > 0 && is_space(s.last()) {
        trim_back(s.drop_last())
    } else {
        s
    }
}

/// `s` without leading and trailing whitespace.
pub open spec fn trim_spec(s: Seq<char>) -> Seq<char> {
    trim_back(trim_front(s))
}

proof fn lemma_trim_front_head(s: Seq<char>)
    ensures
        trim_front(s).len() > 0 ==> !is_space(trim_front(s)[0]),
        trim_front(s).len() <= s.len(),
    decreases s.len(),
{
    if s.len() > 0 && is_space(s[0]) {
        lemma_trim_front_head(s.skip(1));
    }
}

proof fn lemma_trim_back_props(t: Seq<char>)
    ensures
        trim_back(t).len() > 0 ==> trim_back(t)[0] == t[0],
        trim_back(t).len() > 0 ==> !is_space(trim_back(t).last()),
        trim_back(t).len() <= t.len(),
    decreases t.len(),
{
    if t.len() > 0 && is_space(t.last()) {
        lemma_trim_back_props(t.drop_last());
    }
}

/// Trimming is idempotent: a name already trimmed stores as itself.
pub proof fn lemma_trim_idempotent(s: Seq<char>)
    ensures
        trim_spec(trim_spec(s)) == trim_spec(s),
{
    let x = trim_front(s);
    let y = trim_back(x);
    lemma_trim_front_head(s);
    lemma_trim_back_props(x);
    if y.len() == 0 {
        assert(trim_front(y) == y);
        assert(trim_back(trim_front(y)) == y);
    } else {
        assert(y[0] == x[0]);
        assert(!is_space(y[0]));
        assert(trim_front(y) == y);
        assert(!is_space(y.last()));
        assert(trim_back(y) == y);
    }
}

/// Removes leading and trailing whitespace, as resource names are
/// normalized before they are stored or compared for uniqueness.
pub fn trim(s: &str) -> (r: String)
    ensures
        r@ == trim_spec(s@),
{
    let n = s.unicode_len();
    let mut a: usize = 0;
    proof {
        assert(s@.skip(0) =~= s@);
    }
    while a < n
        invariant
            0 <= a <= n,
            n == s@.len(),
            trim_front(s@) == trim_front(s@.skip(a as int)),
        ensures
            0 <= a <= n,
            trim_front(s@) == trim_front(s@.skip(a as int)),
            a < n ==> !is_space(s@[a as int]),
        decreases n - a,
    {
        let c = s.get_char(a);
        if !(c == ' ' || c == '\t' || c == '\r' || c == '\n') {
            break ;
        }
        proof {
            assert(s@.skip(a as int).skip(1) =~= s@.skip(a as int + 1));
        }
        a = a + 1;
    }
    proof {
        assert(trim_front(s@) =~= s@.skip(a as int));
    }
    let ghost t = s@.skip(a as int);
    let mut b: usize = n;
    proof {
        assert(t.take(n - a) =~= t);
    }
    while b > a
        invariant
            a <= b <= n,
            n == s@.len(),
            t == s@.skip(a as int),
            trim_back(t) == trim_back(t.take(b - a)),
        ensures
            a <= b <= n,
            trim_back(t) == trim_back(t.take(b - a)),
            b > a ==> !is_space(s@[b - 1]),
        decreases b,
    {
        let c = s.get_char(b - 1);
        if !(c == ' ' || c == '\t' || c == '\r' || c == '\n') {
            break ;
        }
        proof {
            assert(t.take(b - a).last() == s@[b - 1]);
            assert(t.take(b - a).drop_last() =~= t.take(b - a - 1));
        }
        b = b - 1;
    }
    proof {
        assert(trim_back(t.take(b - a)) =~= t.take(b - a));
        assert(t.take(b - a) =~= s@.subrange(a as int, b as int));
    }
    s.substring_char(a, b).to_owned()
}

/// Whether `s` holds a line break, and so cannot stand as one line.
pub fn contains_newline(s: &str) -> (r: bool)
    ensures
        r == !no_newline(s@),
{
    let n = s.unicode_len();
    let mut i: usize = 0;
    while i < n
        invariant
            0 <= i <= n,
            n == s@.len(),
            forall|j: int| 0 <= j < i ==> s@[j] != '\n',
        decreases n - i,
    {
        if s.get_char(i) == '\n' {
            return true;
        }
        i = i + 1;
    }
    false
}

/// Whether two texts hold the same characters.
pub fn eq_str(a: &str, b: &str) -> (r: bool)
    ensures
        r == (a@ == b@),
{
    let n = a.unicode_len();
    let m = b.unicode_len();
    if n != m {
        return false;
    }
    let mut i: usize = 0;
    while i < n
        invariant
            0 <= i <= n,
            n == a@.len(),
            n == b@.len(),
            forall|j: int| 0 <= j < i ==> a@[j] == b@[j],
        decreases n - i,
    {
        if a.get_char(i) != b.get_char(i) {
            return false;
        }
        i = i + 1;
    }
    proof {
        assert(a@ =~= b@);
    }
    true
}

} // verus!
