//! Splitting and rendering of strings, character by character.
use vstd::prelude::*;
use vstd::string::{StrSliceExecFns, StringExecFns};

verus! {

/// `i` is the first position of `c` in `s`.
pub open spec fn is_first_at(s: Seq<char>, c: char, i: int) -> bool {
    &&& 0 <= i < s.len()
    &&& s[i] == c
    &&& forall|j: int| 0 <= j < i ==> s[j] != c
}

/// The first position of `c` in `s`, or the length of `s` where it has none.
pub open spec fn cut(s: Seq<char>, c: char) -> int {
    if exists|i: int| is_first_at(s, c, i) {
        choose|i: int| is_first_at(s, c, i)
    } else {
        s.len() as int
    }
}

/// What comes before the first `c`, and what comes after it if there is one.
pub open spec fn split_once_spec(s: Seq<char>, c: char) -> (Seq<char>, Option<Seq<char>>) {
    let k = cut(s, c);
    if k < s.len() {
        (s.subrange(0, k), Some(s.subrange(k + 1, s.len() as int)))
    } else {
        (s, None)
    }
}

/// Splits `s` at the first `c`.
pub fn split_once_at(s: &str, c: char) -> (r: (String, Option<String>))
    ensures
        r.0@ == split_once_spec(s@, c).0,
        match r.1 {
            Some(t) => split_once_spec(s@, c).1 == Some(t@),
            None => split_once_spec(s@, c).1 is None,
        },
{
    let n = s.unicode_len();
    let mut i: usize = 0;
    while i < n
        invariant
            i <= n,
            n == s@.len(),
            forall|j: int| 0 <= j < i ==> s@[j] != c,
        decreases n - i,
    {
        if s.get_char(i) == c {
            proof {
                assert(is_first_at(s@, c, i as int));
                let k = cut(s@, c);
                assert(is_first_at(s@, c, k));
                assert(k == i as int);
            }
            let head = s.substring_char(0, i).to_owned();
            let tail = s.substring_char(i + 1, n).to_owned();
            return (head, Some(tail));
        }
        i += 1;
    }
    proof {
        assert(!exists|i: int| is_first_at(s@, c, i));
    }
    (s.to_owned(), None)
}

/// `"name"`, with double quotes around.
pub open spec fn quoted(name: Seq<char>) -> Seq<char> {
    seq!['"'] + name + seq!['"']
}

/// The quoted names separated by commas.
pub open spec fn joined(names: Seq<Seq<char>>) -> Seq<char>
    decreases names.len(),
{
    if names.len() == 0 {
        Seq::empty()
    } else if names.len() == 1 {
        quoted(names[0])
    } else {
        joined(names.drop_last()) + seq![','] + quoted(names.last())
    }
}

/// The names as a bracketed, comma-separated list of double-quoted strings.
pub open spec fn rendered(names: Seq<Seq<char>>) -> Seq<char> {
    seq!['['] + joined(names) + seq![']']
}

/// Renders `names` as `["a","b"]`.
pub fn render_list(names: &Vec<String>) -> (r: String)
    ensures
        r@ == rendered(names@.map_values(|s: String| s@)),
{
    let ghost model = names@.map_values(|s: String| s@);
    let mut out = String::new();
    proof {
        reveal_strlit("[");
        reveal_strlit("\"");
        reveal_strlit(",");
        reveal_strlit("]");
        assert("["@ =~= seq!['[']);
        assert("\""@ =~= seq!['"']);
        assert(","@ =~= seq![',']);
        assert("]"@ =~= seq![']']);
    }
    out.append("[");
    let mut i: usize = 0;
    while i < names.len()
        invariant
            i <= names.len(),
            model == names@.map_values(|s: String| s@),
            out@ == seq!['['] + joined(model.subrange(0, i as int)),
        decreases names.len() - i,
    {
        let ghost before = out@;
        if i > 0 {
            out.append(",");
        }
        out.append("\"");
        out.append(names[i].as_str());
        out.append("\"");
        proof {
            let sub = model.subrange(0, i as int + 1);
            assert(sub.drop_last() =~= model.subrange(0, i as int));
            assert(sub.last() == names@[i as int]@);
            reveal_strlit("\"");
            reveal_strlit(",");
            assert("\""@ =~= seq!['"']);
            assert(","@ =~= seq![',']);
            if i == 0 {
                assert(sub.len() == 1);
                assert(joined(sub) == quoted(sub[0]));
                assert(out@ =~= seq!['['] + joined(sub));
            } else {
                assert(joined(sub) == joined(sub.drop_last()) + seq![','] + quoted(sub.last()));
                assert(out@ =~= seq!['['] + joined(sub));
            }
        }
        i += 1;
    }
    out.append("]");
    proof {
        reveal_strlit("]");
        assert("]"@ =~= seq![']']);
    }
    assert(model.subrange(0, names.len() as int) =~= model);
    assert(out@ =~= rendered(model));
    out
}

} // verus!
