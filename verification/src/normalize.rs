//! The version normalizer: reduces a raw, source-specific token to a
//! canonical three-component version.
//!
//! Rules, applied in order: one leading non-digit character (a tag
//! marker such as `v`) is stripped; anything from the first `+` on
//! (build metadata) is dropped; anything after the first `-` is read as
//! dot-separated prerelease identifiers; the remaining core must hold
//! exactly two or three dot-separated numeric components, a missing
//! patch component is synthesized as `0`; a core with fewer than two
//! components, a non-numeric or overflowing component, or an empty or
//! ill-formed prerelease identifier makes the token malformed.

use vstd::prelude::*;

use crate::Error;
use crate::text::{
    all_digits, chars_of, dec_digits, digits_val, find_char, is_digit, is_numeric_component,
    lemma_dec_digits, lemma_find_char, parse_component, string_from_chars,
};
use crate::version::{render_view, Version, VersionView};

verus! {

/// One leading non-digit character is stripped; a digit-led token is
/// kept whole.
pub open spec fn strip_prefix(s: Seq<char>) -> Seq<char> {
    if s.len() > 0 && !is_digit(s[0]) {
        s.drop_first()
    } else {
        s
    }
}

/// Everything before the first `+`: build metadata is dropped.
pub open spec fn before_plus(s: Seq<char>) -> Seq<char> {
    let i = find_char(s, '+');
    if i < 0 {
        s
    } else {
        s.subrange(0, i)
    }
}

/// The numeric core: everything before the first `-`.
pub open spec fn core_of(s: Seq<char>) -> Seq<char> {
    let i = find_char(s, '-');
    if i < 0 {
        s
    } else {
        s.subrange(0, i)
    }
}

/// The raw prerelease part after the first `-`, when one is present.
pub open spec fn pre_raw_of(s: Seq<char>) -> Option<Seq<char>> {
    let i = find_char(s, '-');
    if i < 0 {
        None
    } else {
        Some(s.subrange(i + 1, s.len() as int))
    }
}

/// The dot-separated components of the core, when there are exactly two
/// or three of them.
pub open spec fn components(core: Seq<char>) -> Option<Seq<Seq<char>>> {
    let d1 = find_char(core, '.');
    if d1 < 0 {
        None
    } else {
        let c1 = core.subrange(0, d1);
        let rest = core.subrange(d1 + 1, core.len() as int);
        let d2 = find_char(rest, '.');
        if d2 < 0 {
            Some(seq![c1, rest])
        } else {
            let c2 = rest.subrange(0, d2);
            let c3 = rest.subrange(d2 + 1, rest.len() as int);
            if find_char(c3, '.') >= 0 {
                None
            } else {
                Some(seq![c1, c2, c3])
            }
        }
    }
}

/// Every component is a parseable numeric component.
pub open spec fn all_numeric(cs: Seq<Seq<char>>) -> bool {
    forall|i: int| 0 <= i < cs.len() ==> is_numeric_component(#[trigger] cs[i])
}

/// A character a prerelease identifier may hold: ASCII alphanumerics
/// and hyphens.
pub open spec fn is_pre_char(c: char) -> bool {
    ||| is_digit(c)
    ||| (97 <= c as u32 && c as u32 <= 122)
    ||| (65 <= c as u32 && c as u32 <= 90)
    ||| c == '-'
}

/// A well-formed prerelease identifier: non-empty, allowed characters
/// only.
pub open spec fn is_pre_ident(s: Seq<char>) -> bool {
    s.len() > 0 && forall|i: int| 0 <= i < s.len() ==> is_pre_char(#[trigger] s[i])
}

/// Every identifier of a prerelease sequence is well formed.
pub open spec fn valid_pre(ids: Seq<Seq<char>>) -> bool {
    forall|i: int| 0 <= i < ids.len() ==> is_pre_ident(#[trigger] ids[i])
}

/// The dot-separated segments of a sequence; an empty sequence yields
/// one empty segment.
pub open spec fn split_dots(s: Seq<char>) -> Seq<Seq<char>>
    decreases s.len(),
    via split_dots_decreases
{
    let i = find_char(s, '.');
    if i < 0 {
        seq![s]
    } else {
        seq![s.subrange(0, i)] + split_dots(s.subrange(i + 1, s.len() as int))
    }
}

#[via_fn]
proof fn split_dots_decreases(s: Seq<char>) {
    lemma_find_char(s, '.');
}

/// The version value a component list and a prerelease sequence stand
/// for; a missing third component is a zero patch.
pub open spec fn make_view(cs: Seq<Seq<char>>, ids: Seq<Seq<char>>) -> VersionView
    recommends
        cs.len() == 2 || cs.len() == 3,
{
    VersionView {
        major: digits_val(cs[0]),
        minor: digits_val(cs[1]),
        patch: if cs.len() == 3 {
            digits_val(cs[2])
        } else {
            0
        },
        pre: ids,
    }
}

/// What `normalize` yields on a raw token: the canonical version value,
/// or nothing when the token is malformed.
pub open spec fn spec_normalize(raw: Seq<char>) -> Option<VersionView> {
    let b = before_plus(strip_prefix(raw));
    let core = core_of(b);
    match components(core) {
        Some(cs) => if all_numeric(cs) {
            match pre_raw_of(b) {
                None => Some(make_view(cs, Seq::<Seq<char>>::empty())),
                Some(p) => if valid_pre(split_dots(p)) {
                    Some(make_view(cs, split_dots(p)))
                } else {
                    None
                },
            }
        } else {
            None
        },
        None => None,
    }
}

/// Finds the first occurrence of `c` in `cs` between `from` and `to`.
fn find_range(cs: &Vec<char>, from: usize, to: usize, c: char) -> (r: Option<usize>)
    requires
        from <= to <= cs@.len(),
    ensures
        ({
            let sub = cs@.subrange(from as int, to as int);
            match r {
                Some(i) => from <= i < to && i - from == find_char(sub, c) && cs@[i as int] == c,
                None => find_char(sub, c) == -1,
            }
        }),
{
    let ghost sub = cs@.subrange(from as int, to as int);
    proof {
        lemma_find_char(sub, c);
    }
    let mut j: usize = from;
    while j < to
        invariant
            from <= j <= to <= cs@.len(),
            sub == cs@.subrange(from as int, to as int),
            forall|k: int| 0 <= k < j - from ==> sub[k] != c,
            -1 <= find_char(sub, c) < sub.len(),
            find_char(sub, c) == -1 ==> forall|i: int| 0 <= i < sub.len() ==> sub[i] != c,
            find_char(sub, c) >= 0 ==> sub[find_char(sub, c)] == c && forall|i: int|
                0 <= i < find_char(sub, c) ==> sub[i] != c,
        decreases to - j,
    {
        if cs[j] == c {
            proof {
                assert(sub[j - from] == cs@[j as int]);
                if find_char(sub, c) < j - from {
                    assert(sub[find_char(sub, c)] == c);
                }
            }
            return Some(j);
        }
        assert(sub[j - from] == cs@[j as int]);
        j = j + 1;
    }
    proof {
        if find_char(sub, c) >= 0 {
            assert(sub[find_char(sub, c)] == c);
        }
    }
    None
}

/// Whether the characters between `from` and `to` form a well-formed
/// prerelease identifier.
fn check_pre_ident(cs: &Vec<char>, from: usize, to: usize) -> (r: bool)
    requires
        from <= to <= cs@.len(),
    ensures
        r == is_pre_ident(cs@.subrange(from as int, to as int)),
{
    let ghost sub = cs@.subrange(from as int, to as int);
    if from == to {
        return false;
    }
    let mut j: usize = from;
    while j < to
        invariant
            from <= j <= to <= cs@.len(),
            sub == cs@.subrange(from as int, to as int),
            forall|k: int| 0 <= k < j - from ==> is_pre_char(#[trigger] sub[k]),
        decreases to - j,
    {
        let u = cs[j] as u32;
        let ok = (48 <= u && u <= 57) || (97 <= u && u <= 122) || (65 <= u && u <= 90) || cs[j]
            == '-';
        assert(sub[j - from] == cs@[j as int]);
        if !ok {
            assert(!is_pre_char(sub[j - from]));
            return false;
        }
        j = j + 1;
    }
    true
}

/// Copies the characters between `from` and `to` into a fresh string.
fn segment_string(cs: &Vec<char>, from: usize, to: usize) -> (r: String)
    requires
        from <= to <= cs@.len(),
    ensures
        r@ == cs@.subrange(from as int, to as int),
{
    let mut v: Vec<char> = Vec::new();
    let mut j: usize = from;
    while j < to
        invariant
            from <= j <= to <= cs@.len(),
            v@ =~= cs@.subrange(from as int, j as int),
        decreases to - j,
    {
        v.push(cs[j]);
        assert(v@ =~= cs@.subrange(from as int, j + 1 as int));
        j = j + 1;
    }
    string_from_chars(&v)
}

/// Parses the numeric core between `from` and `to`: two or three
/// dot-separated numeric components, a missing patch read as zero.
fn parse_core(cs: &Vec<char>, from: usize, to: usize) -> (r: Option<(u64, u64, u64)>)
    requires
        from <= to <= cs@.len(),
    ensures
        ({
            let core = cs@.subrange(from as int, to as int);
            match r {
                Some(p) => match components(core) {
                    Some(comps) => {
                        &&& all_numeric(comps)
                        &&& p.0 == digits_val(comps[0])
                        &&& p.1 == digits_val(comps[1])
                        &&& p.2 == if comps.len() == 3 {
                            digits_val(comps[2])
                        } else {
                            0
                        }
                    },
                    None => false,
                },
                None => match components(core) {
                    Some(comps) => !all_numeric(comps),
                    None => true,
                },
            }
        }),
{
    let ghost core = cs@.subrange(from as int, to as int);
    let p1 = match find_range(cs, from, to, '.') {
        Some(i) => i,
        None => {
            proof {
                assert(components(core) is None);
            }
            return None;
        },
    };
    let ghost c1 = cs@.subrange(from as int, p1 as int);
    let ghost rest = cs@.subrange(p1 + 1 as int, to as int);
    proof {
        assert(c1 =~= core.subrange(0, p1 - from));
        assert(rest =~= core.subrange(p1 - from + 1, core.len() as int));
    }
    let d2 = find_range(cs, p1 + 1, to, '.');
    let ghost comps: Seq<Seq<char>> = match d2 {
        None => seq![c1, rest],
        Some(p2) => seq![
            c1,
            cs@.subrange(p1 + 1 as int, p2 as int),
            cs@.subrange(p2 + 1 as int, to as int),
        ],
    };
    let (minor_to, third): (usize, Option<usize>) = match d2 {
        None => (to, None),
        Some(p2) => {
            match find_range(cs, p2 + 1, to, '.') {
                Some(_) => {
                    proof {
                        assert(cs@.subrange(p2 + 1 as int, to as int) =~= rest.subrange(
                            p2 - p1,
                            rest.len() as int,
                        ));
                        assert(components(core) is None);
                    }
                    return None;
                },
                None => (p2, Some(p2 + 1)),
            }
        },
    };
    proof {
        if d2 is Some {
            let p2 = d2->0;
            assert(cs@.subrange(p1 + 1 as int, p2 as int) =~= rest.subrange(0, p2 - p1 - 1));
            assert(cs@.subrange(p2 + 1 as int, to as int) =~= rest.subrange(
                p2 - p1,
                rest.len() as int,
            ));
        }
        assert(components(core) == Some(comps));
    }
    let major: u64 = match parse_component(cs, from, p1) {
        Some(n) => n,
        None => {
            proof {
                assert(comps[0] == c1);
                assert(!all_numeric(comps));
            }
            return None;
        },
    };
    let minor: u64 = match parse_component(cs, p1 + 1, minor_to) {
        Some(n) => n,
        None => {
            proof {
                assert(comps[1] == cs@.subrange(p1 + 1 as int, minor_to as int));
                assert(!all_numeric(comps));
            }
            return None;
        },
    };
    let patch: u64 = match third {
        None => 0,
        Some(pf) => {
            match parse_component(cs, pf, to) {
                Some(n) => n,
                None => {
                    proof {
                        assert(comps[2] == cs@.subrange(pf as int, to as int));
                        assert(!all_numeric(comps));
                    }
                    return None;
                },
            }
        },
    };
    proof {
        assert forall|k: int| 0 <= k < comps.len() implies is_numeric_component(
            #[trigger] comps[k],
        ) by {
            if k == 0 {
                assert(comps[0] == c1);
            } else if k == 1 {
                assert(comps[1] == cs@.subrange(p1 + 1 as int, minor_to as int));
            } else {
                assert(comps[2] == cs@.subrange(third->0 as int, to as int));
            }
        }
        assert(all_numeric(comps));
    }
    Some((major, minor, patch))
}

/// Splits the characters between `from` and `to` into dot-separated
/// prerelease identifiers; `None` when one of them is ill-formed.
fn parse_pre_idents(cs: &Vec<char>, from: usize, to: usize) -> (r: Option<Vec<String>>)
    requires
        from <= to <= cs@.len(),
    ensures
        ({
            let praw = cs@.subrange(from as int, to as int);
            match r {
                Some(ids) => valid_pre(split_dots(praw)) && ids.deep_view() == split_dots(praw),
                None => !valid_pre(split_dots(praw)),
            }
        }),
{
    let ghost praw = cs@.subrange(from as int, to as int);
    let mut ids: Vec<String> = Vec::new();
    let ghost mut done = Seq::<Seq<char>>::empty();
    let mut pos: usize = from;
    let mut more = true;
    while more
        invariant
            from <= pos <= to <= cs@.len(),
            praw == cs@.subrange(from as int, to as int),
            done =~= ids.deep_view(),
            valid_pre(done),
            more ==> split_dots(praw) == done + split_dots(
                cs@.subrange(pos as int, to as int),
            ),
            !more ==> split_dots(praw) == done,
        decreases to - pos, (if more { 1int } else { 0int }),
    {
        let ghost rem = cs@.subrange(pos as int, to as int);
        match find_range(cs, pos, to, '.') {
            Some(d) => {
                let ghost seg = cs@.subrange(pos as int, d as int);
                proof {
                    assert(seg =~= rem.subrange(0, d - pos));
                    assert(cs@.subrange(d + 1 as int, to as int) =~= rem.subrange(
                        d - pos + 1,
                        rem.len() as int,
                    ));
                    assert(split_dots(rem) == seq![seg] + split_dots(
                        cs@.subrange(d + 1 as int, to as int),
                    ));
                }
                if !check_pre_ident(cs, pos, d) {
                    proof {
                        assert(split_dots(praw)[done.len() as int] == seg);
                        assert(!valid_pre(split_dots(praw)));
                    }
                    return None;
                }
                let s = segment_string(cs, pos, d);
                let ghost old_ids = ids.deep_view();
                ids.push(s);
                proof {
                    assert(ids.deep_view() =~= old_ids.push(seg));
                    done = done.push(seg);
                    assert forall|k: int| 0 <= k < done.len() implies is_pre_ident(
                        #[trigger] done[k],
                    ) by {
                        if k < done.len() - 1 {
                            assert(done[k] == old_ids[k]);
                        }
                    }
                }
                pos = d + 1;
            },
            None => {
                let ghost seg = rem;
                proof {
                    assert(split_dots(rem) == seq![seg]);
                }
                if !check_pre_ident(cs, pos, to) {
                    proof {
                        assert(split_dots(praw)[done.len() as int] == seg);
                        assert(!valid_pre(split_dots(praw)));
                    }
                    return None;
                }
                let s = segment_string(cs, pos, to);
                let ghost old_ids = ids.deep_view();
                ids.push(s);
                proof {
                    assert(ids.deep_view() =~= old_ids.push(seg));
                    done = done.push(seg);
                    assert forall|k: int| 0 <= k < done.len() implies is_pre_ident(
                        #[trigger] done[k],
                    ) by {
                        if k < done.len() - 1 {
                            assert(done[k] == old_ids[k]);
                        }
                    }
                    assert(split_dots(praw) == done);
                }
                more = false;
            },
        }
    }
    Some(ids)
}

/// Normalizes the characters of one raw token; `None` when the token
/// is malformed.
#[verifier::rlimit(100)]
#[verifier::spinoff_prover]
pub fn normalize_chars(cs: &Vec<char>) -> (r: Option<Version>)
    ensures
        match r {
            Some(v) => spec_normalize(cs@) == Some(v@),
            None => spec_normalize(cs@) is None,
        },
{
    let ghost whole = cs@;
    let start: usize = if cs.len() > 0 {
        let u = cs[0] as u32;
        if 48 <= u && u <= 57 {
            0
        } else {
            1
        }
    } else {
        0
    };
    let ghost t = strip_prefix(whole);
    proof {
        assert(t =~= whole.subrange(start as int, whole.len() as int));
    }
    let plus_end: usize = match find_range(cs, start, cs.len(), '+') {
        Some(i) => i,
        None => cs.len(),
    };
    let ghost b = before_plus(t);
    proof {
        assert(b =~= whole.subrange(start as int, plus_end as int));
    }
    let dash = find_range(cs, start, plus_end, '-');
    let core_end: usize = match dash {
        Some(i) => i,
        None => plus_end,
    };
    let ghost core = core_of(b);
    proof {
        assert(core =~= whole.subrange(start as int, core_end as int));
    }
    let (major, minor, patch): (u64, u64, u64) = match parse_core(cs, start, core_end) {
        Some(p) => p,
        None => {
            return None;
        },
    };
    let ghost comps = components(core)->0;
    // prerelease identifiers after the first '-'
    let ghost mut done = Seq::<Seq<char>>::empty();
    let ids: Vec<String> = match dash {
        Some(dash_i) => {
            let ghost praw = whole.subrange(dash_i + 1 as int, plus_end as int);
            proof {
                assert(praw =~= b.subrange(dash_i - start + 1, b.len() as int));
                assert(pre_raw_of(b) == Some(praw));
            }
            match parse_pre_idents(cs, dash_i + 1, plus_end) {
                Some(v) => {
                    proof {
                        done = split_dots(praw);
                    }
                    v
                },
                None => {
                    return None;
                },
            }
        },
        None => {
            proof {
                assert(pre_raw_of(b) is None);
            }
            Vec::new()
        },
    };
    proof {
        assert(done =~= ids.deep_view());
    }
    let v = Version { major, minor, patch, pre: ids };
    proof {
        assert(v@ =~= make_view(comps, done));
        assert(spec_normalize(whole) == Some(v@));
    }
    Some(v)
}

/// Law: normalization is idempotent across re-serialization. A version
/// value that some token normalizes to, carrying no prerelease
/// identifiers, normalizes back to exactly itself from its own
/// `major.minor.patch` rendering.
pub proof fn lemma_normalize_render_round_trip(s: Seq<char>, v: VersionView)
    requires
        spec_normalize(s) == Some(v),
        v.pre.len() == 0,
    ensures
        spec_normalize(render_view(v)) == Some(v),
{
    // the components of the first normalization bound the numbers
    let b0 = before_plus(strip_prefix(s));
    let core0 = core_of(b0);
    assert(components(core0) is Some);
    let cs0 = components(core0)->0;
    assert(all_numeric(cs0));
    assert(cs0.len() == 2 || cs0.len() == 3);
    assert(is_numeric_component(cs0[0]));
    assert(is_numeric_component(cs0[1]));
    assert(v.major <= u64::MAX && v.minor <= u64::MAX && v.patch <= u64::MAX);
    let a = dec_digits(v.major);
    let b = dec_digits(v.minor);
    let c = dec_digits(v.patch);
    lemma_dec_digits(v.major);
    lemma_dec_digits(v.minor);
    lemma_dec_digits(v.patch);
    let r = render_view(v);
    let la = a.len() as int;
    let lb = b.len() as int;
    let lc = c.len() as int;
    assert(r =~= a + seq!['.'] + b + seq!['.'] + c);
    assert(r.len() == la + lb + lc + 2);
    assert forall|i: int| 0 <= i < r.len() implies (if i == la || i == la + 1 + lb {
        r[i] == '.'
    } else {
        is_digit(r[i])
    }) by {
        if i < la {
            assert(r[i] == a[i]);
        } else if i == la {
            assert(r[i] == '.');
        } else if i < la + 1 + lb {
            assert(r[i] == b[i - la - 1]);
        } else if i == la + 1 + lb {
            assert(r[i] == '.');
        } else {
            assert(r[i] == c[i - la - lb - 2]);
        }
    }
    // no tag marker, no build metadata, no prerelease part
    assert(is_digit(r[0]));
    assert(strip_prefix(r) == r);
    lemma_find_char(r, '+');
    if find_char(r, '+') >= 0 {
        assert(r[find_char(r, '+')] == '+');
    }
    assert(before_plus(r) == r);
    lemma_find_char(r, '-');
    if find_char(r, '-') >= 0 {
        assert(r[find_char(r, '-')] == '-');
    }
    assert(core_of(r) == r);
    assert(pre_raw_of(r) is None);
    // the two dots split the rendering into its three components
    lemma_find_char(r, '.');
    let d1 = find_char(r, '.');
    assert(r[la] == '.');
    if d1 < 0 {
        assert(r[la] != '.');
    }
    if d1 < la {
        assert(is_digit(r[d1]) && r[d1] == '.');
    }
    if d1 > la {
        assert(r[la] != '.');
    }
    assert(d1 == la);
    assert(r.subrange(0, la) =~= a);
    let rest = r.subrange(la + 1, r.len() as int);
    assert(rest =~= b + seq!['.'] + c);
    lemma_find_char(rest, '.');
    let d2 = find_char(rest, '.');
    assert(rest[lb] == r[la + 1 + lb]);
    assert(rest[lb] == '.');
    if d2 < 0 {
        assert(rest[lb] != '.');
    }
    if 0 <= d2 < lb {
        assert(rest[d2] == b[d2]);
        assert(is_digit(rest[d2]) && rest[d2] == '.');
    }
    if d2 > lb {
        assert(rest[lb] != '.');
    }
    assert(d2 == lb);
    assert(rest.subrange(0, lb) =~= b);
    let c3 = rest.subrange(lb + 1, rest.len() as int);
    assert(c3 =~= c);
    lemma_find_char(c3, '.');
    if find_char(c3, '.') >= 0 {
        assert(c3[find_char(c3, '.')] == c[find_char(c3, '.')]);
        assert(is_digit(c3[find_char(c3, '.')]) && c3[find_char(c3, '.')] == '.');
    }
    assert(components(r) == Some(seq![a, b, c]));
    let comps = seq![a, b, c];
    assert forall|k: int| 0 <= k < comps.len() implies is_numeric_component(
        #[trigger] comps[k],
    ) by {
        if k == 0 {
            assert(comps[k] == a);
        } else if k == 1 {
            assert(comps[k] == b);
        } else {
            assert(comps[k] == c);
        }
    }
    assert(v.pre =~= Seq::<Seq<char>>::empty());
    assert(make_view(comps, Seq::<Seq<char>>::empty()) =~= v);
    assert(spec_normalize(r) == Some(v));
}

/// Reduces a raw version token to a canonical version, or reports it
/// malformed.
pub fn normalize(raw: &str) -> (r: Result<Version, Error>)
    ensures
        match r {
            Ok(v) => spec_normalize(raw@) == Some(v@),
            Err(e) => {
                &&& spec_normalize(raw@) is None
                &&& e matches Error::MalformedVersion { raw: rr } && rr@ == raw@
            },
        },
{
    let cs = chars_of(raw);
    match normalize_chars(&cs) {
        Some(v) => Ok(v),
        None => Err(Error::MalformedVersion { raw: raw.to_owned() }),
    }
}

} // verus!
