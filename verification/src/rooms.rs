//! Choosing rooms: the names that a room list gives, and the rooms found among the extracted
//! files, in name order.
use vstd::prelude::*;

use crate::regress::strings_view;
use crate::text::{chars_of, push_chars};

verus! {

broadcast use vstd::string::group_string_axioms;

// ---------------------------------------------------------------------------------------------
// Room lists
// ---------------------------------------------------------------------------------------------

/// Unicode white space (the `White_Space` property, as `char::is_whitespace` tests it).
pub open spec fn is_white_space(c: char) -> bool {
    ||| ('\u{9}' <= c && c <= '\u{d}')
    ||| c == ' '
    ||| c == '\u{85}'
    ||| c == '\u{a0}'
    ||| c == '\u{1680}'
    ||| ('\u{2000}' <= c && c <= '\u{200a}')
    ||| c == '\u{2028}'
    ||| c == '\u{2029}'
    ||| c == '\u{202f}'
    ||| c == '\u{205f}'
    ||| c == '\u{3000}'
}

fn white_space(c: char) -> (r: bool)
    ensures
        r == is_white_space(c),
{
    ('\u{9}' <= c && c <= '\u{d}') || c == ' ' || c == '\u{85}' || c == '\u{a0}' || c == '\u{1680}' || ('\u{2000}'
        <= c && c <= '\u{200a}') || c == '\u{2028}' || c == '\u{2029}' || c == '\u{202f}' || c == '\u{205f}' || c
        == '\u{3000}'
}

/// `s` without its leading white space.
pub open spec fn trim_start(s: Seq<char>) -> Seq<char>
    decreases s.len(),
{
    if s.len() > 0 && is_white_space(s[0]) {
        trim_start(s.drop_first())
    } else {
        s
    }
}

/// `s` without its trailing white space.
pub open spec fn trim_end(s: Seq<char>) -> Seq<char>
    decreases s.len(),
{
    if s.len() > 0 && is_white_space(s.last()) {
        trim_end(s.drop_last())
    } else {
        s
    }
}

/// `s` without white space at either end.
pub open spec fn trim(s: Seq<char>) -> Seq<char> {
    trim_end(trim_start(s))
}

/// The pieces of `s` between the separators (one piece when there is none).
pub open spec fn split_on(s: Seq<char>, sep: char) -> Seq<Seq<char>>
    decreases s.len(),
{
    if s.len() == 0 {
        seq![seq![]]
    } else {
        let prev = split_on(s.drop_last(), sep);
        if s.last() == sep {
            prev.push(seq![])
        } else {
            prev.update(prev.len() - 1, prev.last().push(s.last()))
        }
    }
}

proof fn lemma_split_on_nonempty(s: Seq<char>, sep: char)
    ensures
        split_on(s, sep).len() >= 1,
    decreases s.len(),
{
    if s.len() > 0 {
        lemma_split_on_nonempty(s.drop_last(), sep);
    }
}

/// The characters `v[from..to]` without white space at either end.
fn trimmed(v: &Vec<char>, from: usize, to: usize) -> (r: String)
    requires
        from <= to <= v@.len(),
    ensures
        r@ == trim(v@.subrange(from as int, to as int)),
{
    let mut a = from;
    while a < to && white_space(v[a])
        invariant
            from <= a <= to <= v@.len(),
            trim_start(v@.subrange(from as int, to as int)) == trim_start(v@.subrange(a as int, to as int)),
        decreases to - a,
    {
        assert(v@.subrange(a as int, to as int).drop_first() =~= v@.subrange(a + 1, to as int));
        a += 1;
    }
    let mut b = to;
    assert(trim_end(v@.subrange(a as int, to as int)) == trim_end(v@.subrange(a as int, b as int)));
    while b > a && white_space(v[b - 1])
        invariant
            from <= a <= b <= to <= v@.len(),
            trim_end(v@.subrange(a as int, to as int)) == trim_end(v@.subrange(a as int, b as int)),
        decreases b - a,
    {
        assert(v@.subrange(a as int, b as int).drop_last() =~= v@.subrange(a as int, b - 1));
        b -= 1;
    }
    let mut out = String::new();
    push_chars(&mut out, v, a, b);
    assert(out@ =~= v@.subrange(a as int, b as int));
    out
}

/// The room names that a comma-separated list gives, each without white space at either end.
pub fn split_room_list(list: &str) -> (r: Vec<String>)
    ensures
        strings_view(r@) == split_on(list@, ',').map_values(|p: Seq<char>| trim(p)),
{
    let v = chars_of(list);
    let mut out: Vec<String> = Vec::new();
    let ghost mut raw: Seq<Seq<char>> = seq![];
    let mut start: usize = 0;
    let mut i: usize = 0;
    assert(v@.subrange(0, 0) =~= Seq::<char>::empty());
    while i < v.len()
        invariant
            start <= i <= v@.len(),
            split_on(v@.subrange(0, i as int), ',') == raw.push(v@.subrange(start as int, i as int)),
            strings_view(out@) == raw.map_values(|p: Seq<char>| trim(p)),
        decreases v.len() - i,
    {
        let ghost pre = v@.subrange(0, i as int);
        assert(v@.subrange(0, i + 1).drop_last() =~= pre);
        assert(v@.subrange(0, i + 1).last() == v@[i as int]);
        if v[i] == ',' {
            let piece = trimmed(&v, start, i);
            let ghost old_raw = raw;
            let ghost old_sv = strings_view(out@);
            proof {
                raw = raw.push(v@.subrange(start as int, i as int));
            }
            out.push(piece);
            assert(strings_view(out@) =~= old_sv.push(trim(v@.subrange(start as int, i as int))));
            assert(raw.map_values(|p: Seq<char>| trim(p)) =~= old_raw.map_values(|p: Seq<char>| trim(p)).push(
                trim(v@.subrange(start as int, i as int)),
            ));
            start = i + 1;
            assert(v@.subrange(start as int, i + 1) =~= Seq::<char>::empty());
        } else {
            assert(v@.subrange(start as int, i + 1) =~= v@.subrange(start as int, i as int).push(v@[i as int]));
        }
        i += 1;
    }
    let last = trimmed(&v, start, v.len());
    let ghost all = raw.push(v@.subrange(start as int, v@.len() as int));
    let ghost old_sv = strings_view(out@);
    out.push(last);
    assert(strings_view(out@) =~= old_sv.push(trim(v@.subrange(start as int, v@.len() as int))));
    assert(all.map_values(|p: Seq<char>| trim(p)) =~= raw.map_values(|p: Seq<char>| trim(p)).push(
        trim(v@.subrange(start as int, v@.len() as int)),
    ));
    assert(v@.subrange(0, v@.len() as int) =~= v@);
    assert(strings_view(out@) =~= all.map_values(|p: Seq<char>| trim(p)));
    out
}

// ---------------------------------------------------------------------------------------------
// Rooms among the extracted files
// ---------------------------------------------------------------------------------------------

/// The position of the last `.` among the first `n` characters.
pub open spec fn last_dot(s: Seq<char>, n: int) -> Option<int>
    decreases n,
{
    if n <= 0 {
        None
    } else if s[n - 1] == '.' {
        Some(n - 1)
    } else {
        last_dot(s, n - 1)
    }
}

/// The room a file of the rooms directory holds: a file named `<room>.json`, whose extension
/// is what follows its last dot (a name whose only dot comes first has none).
pub open spec fn spec_json_room_name(file_name: Seq<char>) -> Option<Seq<char>> {
    match last_dot(file_name, file_name.len() as int) {
        Some(p) => if p > 0 && file_name.subrange(p + 1, file_name.len() as int) == "json"@ {
            Some(file_name.subrange(0, p))
        } else {
            None
        },
        None => None,
    }
}

/// The room a file holds, by its name: the name before `.json`.
pub fn json_room_name(file_name: &str) -> (r: Option<String>)
    ensures
        r matches Some(s) ==> spec_json_room_name(file_name@) == Some(s@),
        r is None ==> spec_json_room_name(file_name@) is None,
{
    let v = chars_of(file_name);
    let len = v.len();
    let mut p = len;
    while p > 0 && v[p - 1] != '.'
        invariant
            p <= len == v@.len(),
            last_dot(v@, len as int) == last_dot(v@, p as int),
        decreases p,
    {
        p -= 1;
    }
    if p <= 1 {
        return None;
    }
    let dot = p - 1;
    proof {
        reveal_strlit("json");
    }
    let is_json = len - dot == 5 && v[dot + 1] == 'j' && v[dot + 2] == 's' && v[dot + 3] == 'o' && v[dot + 4] == 'n';
    assert(is_json == (v@.subrange(dot + 1, len as int) == "json"@)) by {
        let ext = v@.subrange(dot + 1, len as int);
        if is_json {
            assert(ext =~= "json"@);
        }
        if ext == "json"@ {
            assert(ext.len() == 4);
            assert(ext[0] == v@[dot + 1]);
            assert(ext[1] == v@[dot + 2]);
            assert(ext[2] == v@[dot + 3]);
            assert(ext[3] == v@[dot + 4]);
        }
    }
    if !is_json {
        return None;
    }
    let mut out = String::new();
    push_chars(&mut out, &v, 0, dot);
    Some(out)
}

/// Whether `a` comes before `b` in character order (a proper prefix comes first).
pub open spec fn lex_lt(a: Seq<char>, b: Seq<char>) -> bool
    decreases a.len(),
{
    if a.len() == 0 {
        b.len() > 0
    } else if b.len() == 0 {
        false
    } else if a[0] != b[0] {
        a[0] < b[0]
    } else {
        lex_lt(a.drop_first(), b.drop_first())
    }
}

pub open spec fn lex_le(a: Seq<char>, b: Seq<char>) -> bool {
    a == b || lex_lt(a, b)
}

/// The names are in character order.
pub open spec fn names_sorted(s: Seq<Seq<char>>) -> bool {
    forall|i: int, j: int| 0 <= i < j < s.len() ==> lex_le(s[i], s[j])
}

proof fn lemma_lex_total(a: Seq<char>, b: Seq<char>)
    ensures
        lex_lt(a, b) || lex_le(b, a),
    decreases a.len(),
{
    if a.len() > 0 && b.len() > 0 && a[0] == b[0] {
        lemma_lex_total(a.drop_first(), b.drop_first());
        if a.drop_first() == b.drop_first() {
            assert(a =~= seq![a[0]] + a.drop_first());
            assert(b =~= seq![b[0]] + b.drop_first());
        }
    }
    if a.len() == 0 && b.len() == 0 {
        assert(a =~= b);
    }
}

proof fn lemma_lex_trans(a: Seq<char>, b: Seq<char>, c: Seq<char>)
    requires
        lex_lt(a, b),
        lex_le(b, c),
    ensures
        lex_lt(a, c),
    decreases a.len(),
{
    if b != c {
        if a.len() > 0 && b.len() > 0 && c.len() > 0 && a[0] == b[0] && b[0] == c[0] {
            lemma_lex_trans(a.drop_first(), b.drop_first(), c.drop_first());
        }
    }
}

proof fn lemma_lex_irrefl(a: Seq<char>)
    ensures
        !lex_lt(a, a),
    decreases a.len(),
{
    if a.len() > 0 {
        lemma_lex_irrefl(a.drop_first());
    }
}

/// Whether `a` comes before `b` in character order.
fn precedes(a: &String, b: &String) -> (r: bool)
    ensures
        r == lex_lt(a@, b@),
{
    let x = chars_of(a.as_str());
    let y = chars_of(b.as_str());
    let mut i: usize = 0;
    assert(x@.subrange(0, x@.len() as int) =~= x@);
    assert(y@.subrange(0, y@.len() as int) =~= y@);
    while i < x.len() && i < y.len() && x[i] == y[i]
        invariant
            i <= x@.len(),
            i <= y@.len(),
            lex_lt(x@, y@) == lex_lt(x@.subrange(i as int, x@.len() as int), y@.subrange(i as int, y@.len() as int)),
        decreases x.len() - i,
    {
        let ghost xs = x@.subrange(i as int, x@.len() as int);
        let ghost ys = y@.subrange(i as int, y@.len() as int);
        assert(xs.drop_first() =~= x@.subrange(i + 1, x@.len() as int));
        assert(ys.drop_first() =~= y@.subrange(i + 1, y@.len() as int));
        i += 1;
    }
    let ghost xs = x@.subrange(i as int, x@.len() as int);
    let ghost ys = y@.subrange(i as int, y@.len() as int);
    if i == x.len() {
        i < y.len()
    } else if i == y.len() {
        false
    } else {
        assert(xs[0] == x@[i as int] && ys[0] == y@[i as int]);
        x[i] < y[i]
    }
}

/// The names in character order, each as often as given.
pub fn sort_room_names(names: Vec<String>) -> (r: Vec<String>)
    ensures
        names_sorted(strings_view(r@)),
        strings_view(r@).to_multiset() == strings_view(names@).to_multiset(),
{
    let ghost input = strings_view(names@);
    let mut out: Vec<String> = Vec::new();
    let mut rest = names;
    let ghost mut taken: Seq<Seq<char>> = seq![];
    assert(input =~= taken + strings_view(rest@));
    assert(strings_view(out@) =~= taken);
    while rest.len() > 0
        invariant
            input == taken + strings_view(rest@),
            names_sorted(strings_view(out@)),
            strings_view(out@).to_multiset() == taken.to_multiset(),
        decreases rest.len(),
    {
        let ghost before_rest = strings_view(rest@);
        let x = rest.remove(0);
        let ghost sv = strings_view(out@);
        let mut p: usize = 0;
        while p < out.len() && !precedes(&x, &out[p])
            invariant
                sv == strings_view(out@),
                p <= out@.len(),
                forall|k: int| 0 <= k < p ==> lex_le(#[trigger] sv[k], x@),
            decreases out.len() - p,
        {
            proof {
                lemma_lex_total(x@, out@[p as int]@);
            }
            p += 1;
        }
        let ghost xv = x@;
        out.insert(p, x);
        proof {
            assert(strings_view(out@) =~= sv.insert(p as int, xv));
            let nv = strings_view(out@);
            assert forall|i: int, j: int| 0 <= i < j < nv.len() implies lex_le(nv[i], nv[j]) by {
                if j < p {
                } else if i < p && j == p {
                } else if i < p && j > p {
                    assert(lex_le(sv[i], xv));
                    if p < sv.len() {
                        assert(lex_lt(xv, sv[p as int]));
                        assert(lex_le(sv[p as int], sv[j - 1])) by {
                            if p as int != j - 1 {
                            }
                        }
                        lemma_lex_trans(xv, sv[p as int], sv[j - 1]);
                        if sv[i] == xv {
                        } else {
                            lemma_lex_trans(sv[i], xv, sv[j - 1]);
                        }
                    }
                } else if i == p && j > p {
                    assert(lex_lt(xv, sv[p as int]));
                    assert(lex_le(sv[p as int], sv[j - 1])) by {
                        if p as int != j - 1 {
                        }
                    }
                    lemma_lex_trans(xv, sv[p as int], sv[j - 1]);
                } else {
                    assert(nv[i] == sv[i - 1] && nv[j] == sv[j - 1]);
                }
            }
            assert(strings_view(out@).to_multiset() == sv.insert(p as int, xv).to_multiset());
            assert(sv.len() == out@.len() - 1);
            vstd::seq_lib::to_multiset_insert(sv, p as int, xv);
            vstd::seq_lib::to_multiset_build(taken, xv);
            taken = taken.push(xv);
            assert(input =~= taken + strings_view(rest@)) by {
                assert(before_rest =~= seq![xv] + strings_view(rest@));
            }
        }
    }
    assert(taken =~= input);
    out
}

} // verus!
