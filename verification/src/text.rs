//! Trimming and splitting of the overlay selector: a comma separated list
//! of overlay names, each taken with surrounding blank space removed.

use vstd::prelude::*;

verus! {

/// Whether `c` is blank space for the purpose of trimming overlay names.
pub open spec fn is_space(c: char) -> bool {
    c == ' ' || c == '\t' || c == '\n' || c == '\r'
}

/// `s` without its leading blank space.
pub open spec fn trim_start_spec(s: Seq<char>) -> Seq<char>
    decreases s.len(),
{
    if s.len() > 0 && is_space(s[0]) {
        trim_start_spec(s.drop_first())
    } else {
        s
    }
}

/// `s` without its trailing blank space.
pub open spec fn trim_end_spec(s: Seq<char>) -> Seq<char>
    decreases s.len(),
{
    if s.len() > 0 && is_space(s.last()) {
        trim_end_spec(s.drop_last())
    } else {
        s
    }
}

/// `s` without leading and trailing blank space.
pub open spec fn trimmed(s: Seq<char>) -> Seq<char> {
    trim_end_spec(trim_start_spec(s))
}

/// The comma separated pieces of `s`, with `cur` the piece read so far.
pub open spec fn split_comma_acc(s: Seq<char>, cur: Seq<char>) -> Seq<Seq<char>>
    decreases s.len(),
{
    if s.len() == 0 {
        seq![cur]
    } else if s[0] == ',' {
        seq![cur] + split_comma_acc(s.drop_first(), Seq::empty())
    } else {
        split_comma_acc(s.drop_first(), cur.push(s[0]))
    }
}

/// Each piece with its surrounding blank space removed.
pub open spec fn trim_all(pieces: Seq<Seq<char>>) -> Seq<Seq<char>> {
    pieces.map_values(|piece: Seq<char>| trimmed(piece))
}

/// The overlay names a selector names: its comma separated pieces, each
/// trimmed.
pub open spec fn overlay_list(s: Seq<char>) -> Seq<Seq<char>> {
    trim_all(split_comma_acc(s, Seq::empty()))
}

/// Decide whether `c` is blank space.
pub fn is_space_exec(c: char) -> (r: bool)
    ensures
        r == is_space(c),
{
    c == ' ' || c == '\t' || c == '\n' || c == '\r'
}

/// Remove leading and trailing blank space.
pub fn trim_str(s: &str) -> (r: String)
    ensures
        r@ == trimmed(s@),
{
    let n = s.unicode_len();
    let mut a: usize = 0;
    proof {
        assert(s@.skip(0) =~= s@);
    }
    while a < n && is_space_exec(s.get_char(a))
        invariant
            a <= n,
            n == s@.len(),
            trim_start_spec(s@) == trim_start_spec(s@.skip(a as int)),
        decreases n - a,
    {
        proof {
            assert(s@.skip(a as int)[0] == s@[a as int]);
            assert(s@.skip(a as int).drop_first() =~= s@.skip(a as int + 1));
        }
        a = a + 1;
    }
    proof {
        if a < n {
            assert(s@.skip(a as int)[0] == s@[a as int]);
        }
        assert(trim_start_spec(s@) == s@.skip(a as int));
        assert(s@.subrange(a as int, n as int) =~= s@.skip(a as int));
    }
    let mut b: usize = n;
    while b > a && is_space_exec(s.get_char(b - 1))
        invariant
            a <= b <= n,
            n == s@.len(),
            trim_start_spec(s@) == s@.skip(a as int),
            trim_end_spec(s@.skip(a as int)) == trim_end_spec(s@.subrange(a as int, b as int)),
        decreases b,
    {
        proof {
            assert(s@.subrange(a as int, b as int).drop_last() =~= s@.subrange(
                a as int,
                b as int - 1,
            ));
            assert(s@.subrange(a as int, b as int).last() == s@[b as int - 1]);
        }
        b = b - 1;
    }
    proof {
        if b > a {
            assert(s@.subrange(a as int, b as int).last() == s@[b as int - 1]);
        }
        assert(trim_end_spec(s@.subrange(a as int, b as int)) == s@.subrange(a as int, b as int));
        assert(trimmed(s@) == s@.subrange(a as int, b as int));
    }
    s.substring_char(a, b).to_owned()
}

/// Split a comma separated overlay selector into its trimmed overlay names.
pub fn split_names(s: &str) -> (r: Vec<String>)
    ensures
        r.deep_view() == overlay_list(s@),
{
    let n = s.unicode_len();
    let mut r: Vec<String> = Vec::new();
    let mut start: usize = 0;
    let mut i: usize = 0;
    proof {
        assert(s@.skip(0) =~= s@);
        assert(s@.subrange(0, 0) =~= Seq::<char>::empty());
    }
    while i < n
        invariant
            start <= i <= n,
            n == s@.len(),
            overlay_list(s@) == r.deep_view() + trim_all(
                split_comma_acc(s@.skip(i as int), s@.subrange(start as int, i as int)),
            ),
        decreases n - i,
    {
        let ghost cur = s@.subrange(start as int, i as int);
        proof {
            assert(s@.skip(i as int)[0] == s@[i as int]);
            assert(s@.skip(i as int).drop_first() =~= s@.skip(i as int + 1));
        }
        if s.get_char(i) == ',' {
            let piece = s.substring_char(start, i);
            let t = trim_str(piece);
            let ghost r0 = r.deep_view();
            let ghost rest = split_comma_acc(s@.skip(i as int + 1), Seq::<char>::empty());
            r.push(t);
            proof {
                assert(r.deep_view() =~= r0.push(trimmed(cur)));
                assert(split_comma_acc(s@.skip(i as int), cur) == seq![cur] + rest);
                assert(r0 + trim_all(seq![cur] + rest) =~= r.deep_view() + trim_all(rest));
                assert(s@.subrange(i as int + 1, i as int + 1) =~= Seq::<char>::empty());
            }
            i = i + 1;
            start = i;
        } else {
            proof {
                assert(s@.subrange(start as int, i as int + 1) =~= cur.push(s@[i as int]));
                assert(split_comma_acc(s@.skip(i as int), cur) == split_comma_acc(
                    s@.skip(i as int + 1),
                    cur.push(s@[i as int]),
                ));
            }
            i = i + 1;
        }
    }
    let piece = s.substring_char(start, n);
    let t = trim_str(piece);
    let ghost r0 = r.deep_view();
    let ghost cur = s@.subrange(start as int, n as int);
    r.push(t);
    proof {
        assert(s@.skip(n as int).len() == 0);
        assert(split_comma_acc(s@.skip(n as int), cur) == seq![cur]);
        assert(r.deep_view() =~= r0.push(trimmed(cur)));
        assert(r0 + trim_all(seq![cur]) =~= r.deep_view());
    }
    r
}

} // verus!
