//! Text as sequences of characters: white space, trimming, splitting, joining.

use vstd::prelude::*;
use vstd::string::*;

verus! {

/// The characters with the Unicode property `White_Space`.
pub open spec fn is_white_space(c: char) -> bool {
    let u = c as u32;
    ||| 0x9 <= u <= 0xd
    ||| u == 0x20
    ||| u == 0x85
    ||| u == 0xa0
    ||| u == 0x1680
    ||| 0x2000 <= u <= 0x200a
    ||| u == 0x2028
    ||| u == 0x2029
    ||| u == 0x202f
    ||| u == 0x205f
    ||| u == 0x3000
}

/// Whether `c` is white space.
pub fn white_space(c: char) -> (r: bool)
    ensures
        r == is_white_space(c),
{
    let u: u32 = c as u32;
    (0x9 <= u && u <= 0xd) || u == 0x20 || u == 0x85 || u == 0xa0 || u == 0x1680 || (0x2000 <= u
        && u <= 0x200a) || u == 0x2028 || u == 0x2029 || u == 0x202f || u == 0x205f || u == 0x3000
}

/// `s` without its leading white space.
pub open spec fn trim_start(s: Seq<char>) -> Seq<char>
    decreases s.len(),
{
    if s.len() > 0 && is_white_space(s.first()) {
        trim_start(s.drop_first())
    } else {
        s
    }
}

/// `s` without its trailing white space.
pub open spec fn trim_end(s: Seq<char>) -> Seq<char>
    decreases s.len(),
{
    if s.len() > 0 && is_white_space(s.last()) {
        trim_end(s.drop_last())
    } else {
        s
    }
}

/// `s` without the white space at both of its ends.
pub open spec fn trimmed(s: Seq<char>) -> Seq<char> {
    trim_end(trim_start(s))
}

/// Whether `s` has no white space at either end.
pub open spec fn is_trimmed(s: Seq<char>) -> bool {
    s.len() > 0 ==> !is_white_space(s.first()) && !is_white_space(s.last())
}

/// Trimming leaves alone what has no white space at its ends.
pub proof fn trimmed_keeps(s: Seq<char>)
    requires
        is_trimmed(s),
    ensures
        trimmed(s) == s,
{
}

/// Nothing is left to trim after trimming.
pub proof fn trimmed_is_trimmed(s: Seq<char>)
    ensures
        is_trimmed(trimmed(s)),
        trimmed(trimmed(s)) == trimmed(s),
{
    lemma_trim_start(s);
    lemma_trim_end(trim_start(s));
}

proof fn lemma_trim_start(s: Seq<char>)
    ensures
        trim_start(s).len() > 0 ==> !is_white_space(trim_start(s).first()),
    decreases s.len(),
{
    if s.len() > 0 && is_white_space(s.first()) {
        lemma_trim_start(s.drop_first());
    }
}

proof fn lemma_trim_end(s: Seq<char>)
    ensures
        trim_end(s).len() > 0 ==> !is_white_space(trim_end(s).last()) && trim_end(s).first()
            == s.first(),
    decreases s.len(),
{
    if s.len() > 0 && is_white_space(s.last()) {
        lemma_trim_end(s.drop_last());
    }
}

/// The characters of `s`, in order.
pub fn chars_of(s: &str) -> (v: Vec<char>)
    ensures
        v@ == s@,
{
    let mut v: Vec<char> = Vec::new();
    for c in it: s.chars()
        invariant
            it.seq() == s@,
            v@ == it.seq().take(it.index()),
    {
        v.push(c);
    }
    v
}

/// `s` without the white space at both of its ends.
pub fn trim<'a>(s: &'a str) -> (r: &'a str)
    ensures
        r@ == trimmed(s@),
{
    let cs = chars_of(s);
    let mut from: usize = 0;
    proof {
        assert(s@.skip(0) =~= s@);
    }
    while from < cs.len() && white_space(cs[from])
        invariant
            from <= cs.len(),
            cs@ == s@,
            trim_start(s@) == trim_start(s@.skip(from as int)),
        decreases cs.len() - from,
    {
        proof {
            assert(s@.skip(from as int).drop_first() =~= s@.skip(from + 1));
        }
        from = from + 1;
    }
    let ghost rest = s@.skip(from as int);
    assert(trim_start(s@) == rest);
    let mut to: usize = cs.len();
    proof {
        assert(s@.subrange(from as int, to as int) =~= rest);
    }
    while from < to && white_space(cs[to - 1])
        invariant
            from <= to <= cs.len(),
            cs@ == s@,
            rest == s@.skip(from as int),
            trim_end(rest) == trim_end(s@.subrange(from as int, to as int)),
        decreases to - from,
    {
        proof {
            assert(s@.subrange(from as int, to as int).drop_last() =~= s@.subrange(
                from as int,
                to - 1,
            ));
        }
        to = to - 1;
    }
    s.substring_char(from, to)
}

/// Whether two texts hold the same characters.
pub fn same_text(a: &str, b: &str) -> (r: bool)
    ensures
        r == (a@ == b@),
{
    let x = chars_of(a);
    let y = chars_of(b);
    if x.len() != y.len() {
        return false;
    }
    let mut i: usize = 0;
    while i < x.len()
        invariant
            i <= x.len(),
            x.len() == y.len(),
            x@ == a@,
            y@ == b@,
            forall|j: int| 0 <= j < i ==> a@[j] == b@[j],
        decreases x.len() - i,
    {
        if x[i] != y[i] {
            return false;
        }
        i = i + 1;
    }
    assert(a@ =~= b@);
    true
}

/// The parts of `s` between the occurrences of `sep`: always at least one.
pub open spec fn split_at_each(s: Seq<char>, sep: char) -> Seq<Seq<char>>
    decreases s.len(),
{
    match s.index_of_first(sep) {
        Some(i) => if 0 <= i < s.len() {
            seq![s.take(i)] + split_at_each(s.skip(i + 1), sep)
        } else {
            seq![s]
        },
        None => seq![s],
    }
}

/// The first occurrence of a character, given that it is the first.
pub proof fn lemma_first_index(s: Seq<char>, c: char, i: int)
    requires
        0 <= i < s.len(),
        s[i] == c,
        forall|j: int| 0 <= j < i ==> s[j] != c,
    ensures
        s.index_of_first(c) == Some(i),
{
    s.index_of_first_ensures(c);
}

/// A character that does not occur has no first occurrence.
pub proof fn lemma_no_index(s: Seq<char>, c: char)
    requires
        forall|j: int| 0 <= j < s.len() ==> s[j] != c,
    ensures
        s.index_of_first(c) == None::<int>,
{
    s.index_of_first_ensures(c);
}

/// Splitting a text that starts with a whole part.
pub proof fn lemma_split_first(part: Seq<char>, rest: Seq<char>, sep: char)
    requires
        !part.contains(sep),
    ensures
        split_at_each(part + seq![sep] + rest, sep) == seq![part] + split_at_each(rest, sep),
{
    let s = part + seq![sep] + rest;
    let n = part.len() as int;
    assert(s[n] == sep);
    assert forall|j: int| 0 <= j < n implies s[j] != sep by {
        assert(s[j] == part[j]);
    }
    lemma_first_index(s, sep, n);
    assert(s.take(n) =~= part);
    assert(s.skip(n + 1) =~= rest);
}

/// Splitting a text that ends with a whole part.
pub proof fn lemma_split_last(s: Seq<char>, part: Seq<char>, sep: char)
    requires
        !part.contains(sep),
    ensures
        split_at_each(s + seq![sep] + part, sep) == split_at_each(s, sep).push(part),
    decreases s.len(),
{
    s.index_of_first_ensures(sep);
    let whole = s + seq![sep] + part;
    if s.contains(sep) {
        let i = s.index_of_first(sep)->0;
        let rest = s.skip(i + 1);
        assert forall|j: int| 0 <= j < i implies whole[j] != sep by {
            assert(whole[j] == s[j]);
        }
        lemma_first_index(whole, sep, i);
        lemma_split_last(rest, part, sep);
        assert(whole.take(i) =~= s.take(i));
        assert(whole.skip(i + 1) =~= rest + seq![sep] + part);
        assert(seq![s.take(i)] + split_at_each(rest, sep).push(part) =~= (seq![s.take(i)]
            + split_at_each(rest, sep)).push(part));
    } else {
        lemma_split_first(s, part, sep);
        lemma_split_single(part, sep);
        lemma_split_single(s, sep);
        assert(seq![s] + seq![part] =~= seq![s].push(part));
    }
}

/// Splitting a text without the separator.
pub proof fn lemma_split_single(s: Seq<char>, sep: char)
    requires
        !s.contains(sep),
    ensures
        split_at_each(s, sep) == seq![s],
{
    s.index_of_first_ensures(sep);
}

/// The position of the first `c` in `cs` at or after `from`.
pub fn position(cs: &Vec<char>, from: usize, c: char) -> (r: Option<usize>)
    requires
        from <= cs.len(),
    ensures
        match r {
            Some(i) => from <= i < cs.len() && cs@.skip(from as int).index_of_first(c) == Some(
                i - from,
            ),
            None => cs@.skip(from as int).index_of_first(c) == None::<int>,
        },
{
    let ghost rest = cs@.skip(from as int);
    let mut i: usize = from;
    while i < cs.len()
        invariant
            from <= i <= cs.len(),
            rest == cs@.skip(from as int),
            forall|j: int| 0 <= j < i - from ==> rest[j] != c,
        decreases cs.len() - i,
    {
        if cs[i] == c {
            proof {
                lemma_first_index(rest, c, i - from);
            }
            return Some(i);
        }
        i = i + 1;
    }
    proof {
        lemma_no_index(rest, c);
    }
    None
}

/// The parts of `s` between the occurrences of `sep`.
pub fn split<'a>(s: &'a str, sep: char) -> (parts: Vec<&'a str>)
    ensures
        parts.deep_view() == split_at_each(s@, sep),
{
    let cs = chars_of(s);
    let mut parts: Vec<&'a str> = Vec::new();
    let mut from: usize = 0;
    proof {
        assert(s@.skip(0) =~= s@);
        assert(parts.deep_view() + split_at_each(s@, sep) =~= split_at_each(s@, sep));
    }
    loop
        invariant
            cs@ == s@,
            from <= cs.len(),
            parts.deep_view() + split_at_each(s@.skip(from as int), sep) == split_at_each(s@, sep),
        decreases cs.len() - from,
    {
        let ghost rest = s@.skip(from as int);
        let ghost before = parts.deep_view();
        match position(&cs, from, sep) {
            Some(i) => {
                let part = s.substring_char(from, i);
                parts.push(part);
                proof {
                    assert(part@ =~= rest.take(i - from));
                    assert(rest.skip(i - from + 1) =~= s@.skip(i + 1));
                    assert(parts.deep_view() =~= before.push(part@));
                    assert(before + (seq![part@] + split_at_each(s@.skip(i + 1), sep))
                        =~= parts.deep_view() + split_at_each(s@.skip(i + 1), sep));
                }
                from = i + 1;
            },
            None => {
                let part = s.substring_char(from, cs.len());
                parts.push(part);
                proof {
                    assert(part@ =~= rest);
                    assert(parts.deep_view() =~= before + seq![part@]);
                }
                return parts;
            },
        }
    }
}

/// The texts of `parts` one after the other, with `sep` between two of them.
pub open spec fn joined(parts: Seq<Seq<char>>, sep: Seq<char>) -> Seq<char>
    decreases parts.len(),
{
    if parts.len() == 0 {
        Seq::empty()
    } else if parts.len() == 1 {
        parts[0]
    } else {
        joined(parts.drop_last(), sep) + sep + parts.last()
    }
}

/// Joins the texts of `parts` with `sep` between two of them.
pub fn join(parts: &Vec<String>, sep: &str) -> (r: String)
    ensures
        r@ == joined(parts.deep_view(), sep@),
{
    let mut r = String::new();
    let mut i: usize = 0;
    let ghost all = parts.deep_view();
    while i < parts.len()
        invariant
            i <= parts.len(),
            all == parts.deep_view(),
            r@ == joined(all.take(i as int), sep@),
        decreases parts.len() - i,
    {
        if i > 0 {
            r.append(sep);
        }
        r.append(parts[i].as_str());
        proof {
            assert(all.take(i + 1).drop_last() =~= all.take(i as int));
            assert(all.take(i + 1).last() == parts[i as int]@);
            if i == 0 {
                assert(r@ =~= all.take(1)[0]);
            }
        }
        i = i + 1;
    }
    assert(all.take(i as int) =~= all);
    r
}

/// `a` followed by `b`.
pub fn concat(a: &str, b: &str) -> (r: String)
    ensures
        r@ == a@ + b@,
{
    let mut r = a.to_string();
    r.append(b);
    r
}

/// `a`, `b` and `c`, one after the other.
pub fn concat3(a: &str, b: &str, c: &str) -> (r: String)
    ensures
        r@ == a@ + b@ + c@,
{
    let mut r = a.to_string();
    r.append(b);
    r.append(c);
    r
}

proof fn lemma_trim_start_of_padded(lead: Seq<char>, s: Seq<char>)
    requires
        forall|i: int| 0 <= i < lead.len() ==> is_white_space(#[trigger] lead[i]),
    ensures
        trim_start(lead + s) == trim_start(s),
    decreases lead.len(),
{
    if lead.len() == 0 {
        assert(lead + s =~= s);
    } else {
        assert(is_white_space(lead[0]));
        assert((lead + s).drop_first() =~= lead.drop_first() + s);
        assert forall|i: int| 0 <= i < lead.drop_first().len() implies is_white_space(
            #[trigger] lead.drop_first()[i],
        ) by {
            assert(is_white_space(lead[i + 1]));
        }
        lemma_trim_start_of_padded(lead.drop_first(), s);
    }
}

proof fn lemma_trim_end_of_padded(s: Seq<char>, trail: Seq<char>)
    requires
        forall|i: int| 0 <= i < trail.len() ==> is_white_space(#[trigger] trail[i]),
    ensures
        trim_end(s + trail) == trim_end(s),
    decreases trail.len(),
{
    if trail.len() == 0 {
        assert(s + trail =~= s);
    } else {
        assert(is_white_space(trail[trail.len() - 1]));
        assert((s + trail).drop_last() =~= s + trail.drop_last());
        lemma_trim_end_of_padded(s, trail.drop_last());
    }
}

/// Trimming takes away the white space around a text, however much there is, and nothing
/// of the text itself.
pub proof fn trimmed_of_padded(lead: Seq<char>, core: Seq<char>, trail: Seq<char>)
    requires
        forall|i: int| 0 <= i < lead.len() ==> is_white_space(#[trigger] lead[i]),
        forall|i: int| 0 <= i < trail.len() ==> is_white_space(#[trigger] trail[i]),
        core.len() > 0 ==> !is_white_space(core[0]) && !is_white_space(core[core.len() - 1]),
    ensures
        trimmed(lead + core + trail) == core,
{
    let none = Seq::<char>::empty();
    assert(lead + core + trail =~= lead + (core + trail));
    lemma_trim_start_of_padded(lead, core + trail);
    if core.len() == 0 {
        assert(core + trail =~= trail + none);
        lemma_trim_start_of_padded(trail, none);
        assert(core =~= none);
    } else {
        assert((core + trail).first() == core[0]);
        lemma_trim_end_of_padded(core, trail);
    }
}

/// Joined texts stand one after the other with the separator between each two of them.
pub proof fn joined_one_by_one(parts: Seq<Seq<char>>, part: Seq<char>, sep: Seq<char>)
    ensures
        joined(Seq::empty(), sep) == Seq::<char>::empty(),
        joined(seq![part], sep) == part,
        parts.len() > 0 ==> joined(parts.push(part), sep) == joined(parts, sep) + sep + part,
{
    assert(parts.push(part).drop_last() =~= parts);
}

proof fn lemma_joined_first(part: Seq<char>, parts: Seq<Seq<char>>, sep: Seq<char>)
    requires
        parts.len() > 0,
    ensures
        joined(seq![part] + parts, sep) == part + sep + joined(parts, sep),
    decreases parts.len(),
{
    let all = seq![part] + parts;
    assert(all.drop_last() =~= seq![part] + parts.drop_last());
    if parts.len() == 1 {
        assert(all.drop_last() =~= seq![part]);
        assert(all.last() == parts[0]);
        assert(joined(seq![part], sep) == part);
        assert(joined(all, sep) == part + sep + parts[0]);
    } else {
        assert(all.last() == parts.last());
        lemma_joined_first(part, parts.drop_last(), sep);
        assert(joined(all, sep) =~= part + sep + joined(parts, sep));
    }
}

/// The parts that a text is split into hold no separator, and the text is what comes of
/// joining them with it.
pub proof fn split_parts_join_back(s: Seq<char>, sep: char)
    ensures
        split_at_each(s, sep).len() > 0,
        forall|i: int|
            0 <= i < split_at_each(s, sep).len() ==> !(#[trigger] split_at_each(
                s,
                sep,
            )[i]).contains(sep),
        joined(split_at_each(s, sep), seq![sep]) == s,
    decreases s.len(),
{
    s.index_of_first_ensures(sep);
    if s.contains(sep) {
        let i = s.index_of_first(sep)->0;
        let rest = s.skip(i + 1);
        split_parts_join_back(rest, sep);
        lemma_joined_first(s.take(i), split_at_each(rest, sep), seq![sep]);
        assert(s =~= s.take(i) + seq![sep] + rest);
        assert(!s.take(i).contains(sep)) by {
            if s.take(i).contains(sep) {
                let j = choose|j: int| 0 <= j < i && s.take(i)[j] == sep;
                assert(s[j] == sep);
            }
        }
    } else {
        lemma_split_single(s, sep);
    }
}

} // verus!
