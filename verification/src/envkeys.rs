//! Environment-variable overrides: which variables count as configuration
//! overrides, and how a variable's name is turned into a key path.
//!
//! A variable belongs to the override source when its name is the declared
//! prefix followed by a double underscore.  The remainder of the name is
//! split at double underscores into path segments, so that a single
//! underscore can stay inside a segment name; each segment is then lowered,
//! and, for a kebab-case target, its remaining underscores become hyphens.

use vstd::prelude::*;

use crate::paths::Entry;

verus! {

/// The lower-case counterpart of an upper-case ASCII letter; any other
/// character is kept as it is.
pub open spec fn lower_char(c: char) -> char {
    if c == 'A' {
        'a'
    } else if c == 'B' {
        'b'
    } else if c == 'C' {
        'c'
    } else if c == 'D' {
        'd'
    } else if c == 'E' {
        'e'
    } else if c == 'F' {
        'f'
    } else if c == 'G' {
        'g'
    } else if c == 'H' {
        'h'
    } else if c == 'I' {
        'i'
    } else if c == 'J' {
        'j'
    } else if c == 'K' {
        'k'
    } else if c == 'L' {
        'l'
    } else if c == 'M' {
        'm'
    } else if c == 'N' {
        'n'
    } else if c == 'O' {
        'o'
    } else if c == 'P' {
        'p'
    } else if c == 'Q' {
        'q'
    } else if c == 'R' {
        'r'
    } else if c == 'S' {
        's'
    } else if c == 'T' {
        't'
    } else if c == 'U' {
        'u'
    } else if c == 'V' {
        'v'
    } else if c == 'W' {
        'w'
    } else if c == 'X' {
        'x'
    } else if c == 'Y' {
        'y'
    } else if c == 'Z' {
        'z'
    } else {
        c
    }
}

/// A segment with its letters lowered.
pub open spec fn lower_seg(s: Seq<char>) -> Seq<char> {
    s.map_values(|c: char| lower_char(c))
}

/// The kebab counterpart of a character: an underscore becomes a hyphen.
pub open spec fn kebab_char(c: char) -> char {
    if c == '_' {
        '-'
    } else {
        c
    }
}

/// A segment with its underscores turned to hyphens.
pub open spec fn kebab_seg(s: Seq<char>) -> Seq<char> {
    s.map_values(|c: char| kebab_char(c))
}

/// The pieces of a stripped variable name, with `cur` the piece read so
/// far: a double underscore separates segments, a single underscore stays
/// inside its segment.
pub open spec fn split_sep_acc(s: Seq<char>, cur: Seq<char>) -> Seq<Seq<char>>
    decreases s.len(),
{
    if s.len() >= 2 && s[0] == '_' && s[1] == '_' {
        seq![cur] + split_sep_acc(s.skip(2), Seq::empty())
    } else if s.len() == 0 {
        seq![cur]
    } else {
        split_sep_acc(s.drop_first(), cur.push(s[0]))
    }
}

/// The segments of a stripped variable name: split at double underscores.
pub open spec fn split_segments(s: Seq<char>) -> Seq<Seq<char>> {
    split_sep_acc(s, Seq::empty())
}

/// Whether `name` marks a configuration override: the prefix, then a
/// double underscore, then the key.
pub open spec fn env_key_matches(name: Seq<char>, prefix: Seq<char>) -> bool {
    &&& name.len() >= prefix.len() + 2
    &&& name.take(prefix.len() as int) == prefix
    &&& name[prefix.len() as int] == '_'
    &&& name[prefix.len() as int + 1] == '_'
}

/// The raw key path of an override: the segments of the name after the
/// prefix and separator, lowered.
pub open spec fn raw_env_path(name: Seq<char>, prefix: Seq<char>) -> Seq<Seq<char>> {
    split_segments(name.skip(prefix.len() as int + 2)).map_values(|seg: Seq<char>| lower_seg(seg))
}

/// The key path of an override under a kebab-case target: the raw path
/// with underscores turned to hyphens.
pub open spec fn env_path(name: Seq<char>, prefix: Seq<char>) -> Seq<Seq<char>> {
    raw_env_path(name, prefix).map_values(|seg: Seq<char>| kebab_seg(seg))
}

/// The key-casing policy of the target type: `Raw` keeps the lowered
/// segments as they are, `Kebab` turns their underscores to hyphens so
/// that they match a kebab-case field name.
#[derive(Clone, Copy, Debug, PartialEq, Eq, Structural)]
pub enum KeyCase {
    /// Keep the lowered segments unchanged.
    Raw,
    /// Turn underscores inside segments to hyphens.
    Kebab,
}

/// The key path of an override under the given casing policy.
pub open spec fn cased_env_path(name: Seq<char>, prefix: Seq<char>, case: KeyCase) -> Seq<
    Seq<char>,
> {
    match case {
        KeyCase::Raw => raw_env_path(name, prefix),
        KeyCase::Kebab => env_path(name, prefix),
    }
}

/// The environment source: one entry per override variable, in input order.
pub open spec fn env_source(
    vars: Seq<(Seq<char>, Seq<char>)>,
    prefix: Seq<char>,
    case: KeyCase,
) -> Seq<(Seq<Seq<char>>, Seq<char>)>
    decreases vars.len(),
{
    if vars.len() == 0 {
        Seq::empty()
    } else {
        let rest = env_source(vars.drop_first(), prefix, case);
        if env_key_matches(vars.first().0, prefix) {
            seq![(cased_env_path(vars.first().0, prefix, case), vars.first().1)] + rest
        } else {
            rest
        }
    }
}

/// Whether a segment contains no double underscore.
pub open spec fn no_dsep(seg: Seq<char>) -> bool {
    forall|i: int| #![trigger seg[i]]
        0 <= i < seg.len() - 1 ==> !(seg[i] == '_' && seg[i + 1] == '_')
}

/// The name a key path would carry as an override: its segments joined by
/// double underscores.
pub open spec fn join_sep(segs: Seq<Seq<char>>) -> Seq<char>
    decreases segs.len(),
{
    if segs.len() == 0 {
        Seq::empty()
    } else if segs.len() == 1 {
        segs[0]
    } else {
        segs[0] + seq!['_', '_'] + join_sep(segs.drop_first())
    }
}

/// Splitting a separator-free piece yields that piece, appended to what was
/// read so far.
proof fn lemma_split_acc_plain(s: Seq<char>, cur: Seq<char>)
    requires
        no_dsep(s),
    ensures
        split_sep_acc(s, cur) == seq![cur + s],
    decreases s.len(),
{
    if s.len() == 0 {
        assert(cur + s =~= cur);
    } else {
        assert(!(s.len() >= 2 && s[0] == '_' && s[1] == '_'));
        assert(no_dsep(s.drop_first()));
        lemma_split_acc_plain(s.drop_first(), cur.push(s[0]));
        assert(cur.push(s[0]) + s.drop_first() =~= cur + s);
    }
}

/// Splitting passes unchanged through a piece that holds no double
/// underscore and does not end with an underscore, then consumes the
/// separator after it.
proof fn lemma_split_acc_through(pre: Seq<char>, tail: Seq<char>, cur: Seq<char>)
    requires
        no_dsep(pre),
        pre.len() > 0 ==> pre.last() != '_',
    ensures
        split_sep_acc(pre + seq!['_', '_'] + tail, cur) == seq![cur + pre] + split_sep_acc(
            tail,
            Seq::empty(),
        ),
    decreases pre.len(),
{
    let s = pre + seq!['_', '_'] + tail;
    if pre.len() == 0 {
        assert(s[0] == '_' && s[1] == '_');
        assert(s.skip(2) =~= tail);
        assert(cur + pre =~= cur);
    } else {
        assert(s[0] == pre[0]);
        if pre.len() == 1 {
            assert(s[0] == pre.last());
            assert(!(s[0] == '_' && s[1] == '_'));
        } else {
            assert(s[1] == pre[1]);
            assert(!(s[0] == '_' && s[1] == '_'));
        }
        assert(no_dsep(pre.drop_first()));
        assert(pre.drop_first().len() > 0 ==> pre.drop_first().last() == pre.last());
        lemma_split_acc_through(pre.drop_first(), tail, cur.push(s[0]));
        assert(s.drop_first() =~= pre.drop_first() + seq!['_', '_'] + tail);
        assert(cur.push(s[0]) + pre.drop_first() =~= cur + pre);
    }
}

/// Round trip of segment splitting: joining key-path segments with double
/// underscores and splitting the joined name gives the segments back, so a
/// single underscore inside a segment is preserved.  This holds whenever no
/// segment contains a double underscore and no segment before the last ends
/// with an underscore.
pub proof fn lemma_split_join_roundtrip(segs: Seq<Seq<char>>)
    requires
        segs.len() > 0,
        forall|i: int| 0 <= i < segs.len() ==> no_dsep(#[trigger] segs[i]),
        forall|i: int|
            0 <= i < segs.len() - 1 ==> (#[trigger] segs[i].len() > 0 ==> segs[i].last() != '_'),
    ensures
        split_segments(join_sep(segs)) == segs,
    decreases segs.len(),
{
    if segs.len() == 1 {
        lemma_split_acc_plain(segs[0], Seq::empty());
        assert(Seq::<char>::empty() + segs[0] =~= segs[0]);
        assert(seq![segs[0]] =~= segs);
    } else {
        lemma_split_acc_through(segs[0], join_sep(segs.drop_first()), Seq::empty());
        assert(Seq::<char>::empty() + segs[0] =~= segs[0]);
        assert(forall|i: int|
            0 <= i < segs.drop_first().len() ==> no_dsep(#[trigger] segs.drop_first()[i]));
        assert(forall|i: int|
            0 <= i < segs.drop_first().len() - 1 ==> (#[trigger] segs.drop_first()[i].len() > 0
                ==> segs.drop_first()[i].last() != '_'));
        lemma_split_join_roundtrip(segs.drop_first());
        assert(seq![segs[0]] + segs.drop_first() =~= segs);
    }
}

/// Lower the letters of one segment.
pub fn lower_str(s: &str) -> (r: String)
    ensures
        r@ == lower_seg(s@),
{
    let n = s.unicode_len();
    let mut r = String::new();
    let mut i: usize = 0;
    proof {
        assert(lower_seg(s@.take(0)) =~= Seq::<char>::empty());
    }
    while i < n
        invariant
            i <= n,
            n == s@.len(),
            r@ == lower_seg(s@.take(i as int)),
        decreases n - i,
    {
        let c = s.get_char(i);
        let rep: &str = if c == 'A' {
            "a"
        } else if c == 'B' {
            "b"
        } else if c == 'C' {
            "c"
        } else if c == 'D' {
            "d"
        } else if c == 'E' {
            "e"
        } else if c == 'F' {
            "f"
        } else if c == 'G' {
            "g"
        } else if c == 'H' {
            "h"
        } else if c == 'I' {
            "i"
        } else if c == 'J' {
            "j"
        } else if c == 'K' {
            "k"
        } else if c == 'L' {
            "l"
        } else if c == 'M' {
            "m"
        } else if c == 'N' {
            "n"
        } else if c == 'O' {
            "o"
        } else if c == 'P' {
            "p"
        } else if c == 'Q' {
            "q"
        } else if c == 'R' {
            "r"
        } else if c == 'S' {
            "s"
        } else if c == 'T' {
            "t"
        } else if c == 'U' {
            "u"
        } else if c == 'V' {
            "v"
        } else if c == 'W' {
            "w"
        } else if c == 'X' {
            "x"
        } else if c == 'Y' {
            "y"
        } else if c == 'Z' {
            "z"
        } else {
            s.substring_char(i, i + 1)
        };
        proof {
            reveal_strlit("a");
            reveal_strlit("b");
            reveal_strlit("c");
            reveal_strlit("d");
            reveal_strlit("e");
            reveal_strlit("f");
            reveal_strlit("g");
            reveal_strlit("h");
            reveal_strlit("i");
            reveal_strlit("j");
            reveal_strlit("k");
            reveal_strlit("l");
            reveal_strlit("m");
            reveal_strlit("n");
            reveal_strlit("o");
            reveal_strlit("p");
            reveal_strlit("q");
            reveal_strlit("r");
            reveal_strlit("s");
            reveal_strlit("t");
            reveal_strlit("u");
            reveal_strlit("v");
            reveal_strlit("w");
            reveal_strlit("x");
            reveal_strlit("y");
            reveal_strlit("z");
            assert(rep@ =~= seq![lower_char(c)]);
            assert(lower_seg(s@.take(i as int + 1)) =~= lower_seg(s@.take(i as int)) + seq![
                lower_char(s@[i as int]),
            ]);
        }
        r.append(rep);
        i = i + 1;
    }
    proof {
        assert(s@.take(n as int) =~= s@);
    }
    r
}

/// Turn the underscores of one segment to hyphens.
pub fn kebab_str(s: &str) -> (r: String)
    ensures
        r@ == kebab_seg(s@),
{
    let n = s.unicode_len();
    let mut r = String::new();
    let mut i: usize = 0;
    proof {
        assert(kebab_seg(s@.take(0)) =~= Seq::<char>::empty());
    }
    while i < n
        invariant
            i <= n,
            n == s@.len(),
            r@ == kebab_seg(s@.take(i as int)),
        decreases n - i,
    {
        let c = s.get_char(i);
        let rep: &str = if c == '_' {
            "-"
        } else {
            s.substring_char(i, i + 1)
        };
        proof {
            reveal_strlit("-");
            assert(rep@ =~= seq![kebab_char(c)]);
            assert(kebab_seg(s@.take(i as int + 1)) =~= kebab_seg(s@.take(i as int)) + seq![
                kebab_char(s@[i as int]),
            ]);
        }
        r.append(rep);
        i = i + 1;
    }
    proof {
        assert(s@.take(n as int) =~= s@);
    }
    r
}

/// Split a stripped variable name into its segments at double underscores.
pub fn split_key(s: &str) -> (r: Vec<String>)
    ensures
        r.deep_view() == split_segments(s@),
{
    let n = s.unicode_len();
    let mut r: Vec<String> = Vec::new();
    let mut start: usize = 0;
    let mut i: usize = 0;
    proof {
        assert(s@.skip(0) =~= s@);
        assert(s@.subrange(0, 0) =~= Seq::<char>::empty());
    }
    while i < n
        invariant
            start <= i <= n,
            n == s@.len(),
            split_segments(s@) == r.deep_view() + split_sep_acc(
                s@.skip(i as int),
                s@.subrange(start as int, i as int),
            ),
        decreases n - i,
    {
        let ghost cur = s@.subrange(start as int, i as int);
        proof {
            assert(s@.skip(i as int)[0] == s@[i as int]);
            if i + 1 < n {
                assert(s@.skip(i as int)[1] == s@[i as int + 1]);
            }
        }
        if i + 1 < n && s.get_char(i) == '_' && s.get_char(i + 1) == '_' {
            let piece = s.substring_char(start, i).to_owned();
            let ghost r0 = r.deep_view();
            r.push(piece);
            proof {
                assert(r.deep_view() =~= r0.push(cur));
                assert(s@.skip(i as int).skip(2) =~= s@.skip(i as int + 2));
                assert(split_sep_acc(s@.skip(i as int), cur) == seq![cur] + split_sep_acc(
                    s@.skip(i as int + 2),
                    Seq::empty(),
                ));
                assert(r0 + (seq![cur] + split_sep_acc(s@.skip(i as int + 2), Seq::empty()))
                    =~= r.deep_view() + split_sep_acc(s@.skip(i as int + 2), Seq::empty()));
                assert(s@.subrange(i as int + 2, i as int + 2) =~= Seq::<char>::empty());
            }
            i = i + 2;
            start = i;
        } else {
            proof {
                assert(s@.skip(i as int).drop_first() =~= s@.skip(i as int + 1));
                assert(s@.subrange(start as int, i as int + 1) =~= cur.push(s@[i as int]));
                assert(split_sep_acc(s@.skip(i as int), cur) == split_sep_acc(
                    s@.skip(i as int + 1),
                    cur.push(s@[i as int]),
                ));
            }
            i = i + 1;
        }
    }
    let piece = s.substring_char(start, n).to_owned();
    let ghost r0 = r.deep_view();
    let ghost cur = s@.subrange(start as int, n as int);
    r.push(piece);
    proof {
        assert(s@.skip(n as int).len() == 0);
        assert(split_sep_acc(s@.skip(n as int), cur) == seq![cur]);
        assert(r.deep_view() =~= r0.push(cur));
        assert(r0 + seq![cur] =~= r.deep_view());
    }
    r
}

/// Strip the override prefix and its double-underscore separator from a
/// variable name; `None` when the name does not mark an override.
pub fn env_key_strip(name: &str, prefix: &str) -> (r: Option<String>)
    ensures
        match r {
            Option::Some(rest) => env_key_matches(name@, prefix@) && rest@ == name@.skip(
                prefix@.len() as int + 2,
            ),
            Option::None => !env_key_matches(name@, prefix@),
        },
{
    let nl = name.unicode_len();
    let pl = prefix.unicode_len();
    if nl < 2 || pl > nl - 2 {
        return Option::None;
    }
    let mut k: usize = 0;
    while k < pl
        invariant
            k <= pl,
            nl >= 2,
            pl <= nl - 2,
            nl == name@.len(),
            pl == prefix@.len(),
            forall|m: int| 0 <= m < k ==> name@[m] == prefix@[m],
        decreases pl - k,
    {
        if !(name.get_char(k) == prefix.get_char(k)) {
            proof {
                assert(name@.take(pl as int)[k as int] == name@[k as int]);
            }
            return Option::None;
        }
        k = k + 1;
    }
    proof {
        assert(name@.take(pl as int) =~= prefix@);
    }
    if name.get_char(pl) == '_' && name.get_char(pl + 1) == '_' {
        Option::Some(name.substring_char(pl + 2, nl).to_owned())
    } else {
        Option::None
    }
}

/// Collect the environment source under the given casing policy: every
/// variable whose name is the prefix, a double underscore, and a key
/// becomes one entry, its path the lowered segments of the key, kebab'd
/// when the target is kebab-case.
pub fn env_entries(prefix: &str, vars: &Vec<(String, String)>, case: KeyCase) -> (r: Vec<Entry>)
    ensures
        r.deep_view() == env_source(vars.deep_view(), prefix@, case),
{
    let mut r: Vec<Entry> = Vec::new();
    let mut j: usize = 0;
    proof {
        assert(vars.deep_view().skip(0) =~= vars.deep_view());
    }
    while j < vars.len()
        invariant
            j <= vars.len(),
            env_source(vars.deep_view(), prefix@, case) == r.deep_view() + env_source(
                vars.deep_view().skip(j as int),
                prefix@,
                case,
            ),
        decreases vars.len() - j,
    {
        let ghost vrest = vars.deep_view().skip(j as int);
        let ghost name = vars.deep_view()[j as int].0;
        proof {
            assert(vrest.first() == vars.deep_view()[j as int]);
            assert(vrest.drop_first() =~= vars.deep_view().skip(j as int + 1));
        }
        match env_key_strip(vars[j].0.as_str(), prefix) {
            Option::Some(rest) => {
                let segs = split_key(rest.as_str());
                let mut path: Vec<String> = Vec::new();
                let mut t: usize = 0;
                proof {
                    assert(path.deep_view() =~= cased_env_path(name, prefix@, case).take(0));
                    assert(rest@ == name.skip(prefix@.len() as int + 2));
                }
                while t < segs.len()
                    invariant
                        t <= segs.len(),
                        segs.deep_view() == split_segments(name.skip(prefix@.len() as int + 2)),
                        path.deep_view() == cased_env_path(name, prefix@, case).take(t as int),
                        cased_env_path(name, prefix@, case).len() == segs.len(),
                    decreases segs.len() - t,
                {
                    let low = lower_str(segs[t].as_str());
                    let seg = match case {
                        KeyCase::Raw => low,
                        KeyCase::Kebab => kebab_str(low.as_str()),
                    };
                    let ghost p0 = path.deep_view();
                    path.push(seg);
                    proof {
                        assert(segs.deep_view()[t as int] == segs@[t as int]@);
                        if case is Kebab {
                            assert(cased_env_path(name, prefix@, case)[t as int] == kebab_seg(
                                lower_seg(segs.deep_view()[t as int]),
                            ));
                        } else {
                            assert(cased_env_path(name, prefix@, case)[t as int] == lower_seg(
                                segs.deep_view()[t as int],
                            ));
                        }
                        assert(path.deep_view() =~= p0.push(
                            cased_env_path(name, prefix@, case)[t as int],
                        ));
                        assert(path.deep_view() =~= cased_env_path(name, prefix@, case).take(
                            t as int + 1,
                        ));
                    }
                    t = t + 1;
                }
                proof {
                    assert(cased_env_path(name, prefix@, case).take(segs.len() as int)
                        =~= cased_env_path(name, prefix@, case));
                }
                let ghost r0 = r.deep_view();
                let value = vars[j].1.clone();
                r.push(Entry { path, value });
                proof {
                    assert(r.deep_view() =~= r0.push(
                        (cased_env_path(name, prefix@, case), vars.deep_view()[j as int].1),
                    ));
                    assert(env_source(vrest, prefix@, case) == seq![
                        (cased_env_path(name, prefix@, case), vars.deep_view()[j as int].1),
                    ] + env_source(vars.deep_view().skip(j as int + 1), prefix@, case));
                    assert(r0 + env_source(vrest, prefix@, case) =~= r.deep_view() + env_source(
                        vars.deep_view().skip(j as int + 1),
                        prefix@,
                        case,
                    ));
                }
            },
            Option::None => {
                proof {
                    assert(env_source(vrest, prefix@, case) == env_source(
                        vars.deep_view().skip(j as int + 1),
                        prefix@,
                        case,
                    ));
                }
            },
        }
        j = j + 1;
    }
    proof {
        assert(vars.deep_view().skip(vars.len() as int).len() == 0);
        assert(env_source(vars.deep_view().skip(vars.len() as int), prefix@, case) == Seq::<
            (Seq<Seq<char>>, Seq<char>),
        >::empty());
        assert(r.deep_view() + Seq::<(Seq<Seq<char>>, Seq<char>)>::empty() =~= r.deep_view());
    }
    r
}

} // verus!
