//! Splitting a line of a data file into its comma-separated fields.

use vstd::prelude::*;

verus! {

/// The fields of `s` between commas, in order: `n` commas give `n + 1`
/// fields, some of which may be empty.
pub open spec fn split_commas(s: Seq<char>) -> Seq<Seq<char>>
    decreases s.len(),
{
    if s.len() == 0 {
        seq![Seq::<char>::empty()]
    } else {
        let front = split_commas(s.drop_last());
        if s.last() == ',' {
            front.push(Seq::<char>::empty())
        } else {
            front.update(front.len() - 1, front.last().push(s.last()))
        }
    }
}

/// There is always at least one field.
pub proof fn lemma_split_nonempty(s: Seq<char>)
    ensures
        split_commas(s).len() >= 1,
    decreases s.len(),
{
    if s.len() > 0 {
        lemma_split_nonempty(s.drop_last());
    }
}

/// The views of a sequence of string slices.
pub open spec fn field_views(fields: Seq<&str>) -> Seq<Seq<char>> {
    fields.map_values(|f: &str| f@)
}

/// The comma-separated fields of `line`, as `str::split(",")` gives them.
pub fn split_fields<'a>(line: &'a str) -> (fields: Vec<&'a str>)
    ensures
        field_views(fields@) == split_commas(line@),
        join_commas(field_views(fields@)) == line@,
        forall|i: int| 0 <= i < fields@.len() ==> !(#[trigger] fields@[i])@.contains(','),
{
    let ghost s = line@;
    let n = line.unicode_len();
    let mut fields: Vec<&'a str> = Vec::new();
    let mut chars = line.chars();
    let mut start: usize = 0;
    let mut i: usize = 0;
    assert(s.take(0) =~= Seq::<char>::empty());
    assert(field_views(fields@) + seq![s.subrange(0, 0)] =~= split_commas(s.take(0)));
    loop
        invariant
            s == line@,
            n == s.len(),
            start <= i <= s.len(),
            vstd::std_specs::iter::IteratorSpec::remaining(&chars) == s.skip(i as int),
            vstd::std_specs::iter::IteratorSpec::obeys_prophetic_iter_laws(&chars),
            field_views(fields@) + seq![s.subrange(start as int, i as int)] == split_commas(
                s.take(i as int),
            ),
        ensures
            start <= i == s.len(),
            field_views(fields@) + seq![s.subrange(start as int, i as int)] == split_commas(s),
        decreases s.len() - i,
    {
        let ghost before = chars;
        match chars.next() {
            None => {
                assert(s.skip(i as int).len() == 0);
                assert(s.take(i as int) =~= s);
                break ;
            },
            Some(c) => {
                assert(c == s[i as int]);
                assert(s.take(i + 1).drop_last() =~= s.take(i as int));
                assert(s.take(i + 1).last() == c);
                assert(vstd::std_specs::iter::IteratorSpec::remaining(&chars) =~= s.skip(i + 1));
                let ghost front = split_commas(s.take(i as int));
                proof {
                    lemma_split_nonempty(s.take(i as int));
                }
                if c == ',' {
                    let field = line.substring_char(start, i);
                    let ghost old_fields = fields@;
                    fields.push(field);
                    assert(field_views(fields@) =~= field_views(old_fields).push(s.subrange(start as int, i as int)));
                    start = i + 1;
                    assert(s.subrange(start as int, i + 1) =~= Seq::<char>::empty());
                    assert(field_views(fields@) + seq![s.subrange(start as int, i + 1)] =~= front.push(
                        Seq::<char>::empty(),
                    ));
                } else {
                    assert(front.last() == s.subrange(start as int, i as int));
                    assert(s.subrange(start as int, i + 1) =~= s.subrange(start as int, i as int).push(c));
                    assert(field_views(fields@) + seq![s.subrange(start as int, i + 1)] =~= front.update(
                        front.len() - 1,
                        front.last().push(c),
                    ));
                }
                i = i + 1;
            },
        }
    }
    let last = line.substring_char(start, i);
    let ghost old_fields = fields@;
    fields.push(last);
    assert(field_views(fields@) =~= field_views(old_fields).push(s.subrange(start as int, i as int)));
    assert(field_views(fields@) == split_commas(s));
    proof {
        law_split_commas(s);
        assert forall|j: int| 0 <= j < fields@.len() implies !(#[trigger] fields@[j])@.contains(',') by {
            assert(field_views(fields@)[j] == fields@[j]@);
            assert(!split_commas(s)[j].contains(','));
        }
    }
    fields
}

/// The fields `f` put back together, with a comma between each two.
pub open spec fn join_commas(f: Seq<Seq<char>>) -> Seq<char>
    decreases f.len(),
{
    if f.len() == 0 {
        Seq::empty()
    } else if f.len() == 1 {
        f[0]
    } else {
        join_commas(f.drop_last()) + seq![','] + f.last()
    }
}

/// The fields of a line are exactly its comma-separated pieces: no field
/// holds a comma, and joining them with commas gives back the line.
pub proof fn law_split_commas(s: Seq<char>)
    ensures
        join_commas(split_commas(s)) == s,
        forall|i: int| 0 <= i < split_commas(s).len() ==> !(#[trigger] split_commas(s)[i]).contains(','),
    decreases s.len(),
{
    lemma_split_nonempty(s);
    if s.len() > 0 {
        let t = s.drop_last();
        let c = s.last();
        let front = split_commas(t);
        law_split_commas(t);
        lemma_split_nonempty(t);
        let f = split_commas(s);
        if c == ',' {
            assert(f =~= front.push(Seq::<char>::empty()));
            assert(f.drop_last() =~= front);
            assert(join_commas(f) =~= t + seq![','] + Seq::<char>::empty());
            assert(s =~= t.push(','));
            assert forall|i: int| 0 <= i < f.len() implies !(#[trigger] f[i]).contains(',') by {
                if i < front.len() {
                    assert(f[i] == front[i]);
                } else {
                    assert(f[i] =~= Seq::<char>::empty());
                }
            }
        } else {
            let last = front.last();
            assert(f =~= front.update(front.len() - 1, last.push(c)));
            if front.len() == 1 {
                assert(join_commas(front) == front[0]);
                assert(join_commas(f) == f[0]);
                assert(s =~= t.push(c));
            } else {
                assert(f.drop_last() =~= front.drop_last());
                assert(join_commas(f) == join_commas(front.drop_last()) + seq![','] + last.push(c));
                assert(join_commas(front) == join_commas(front.drop_last()) + seq![','] + last);
                assert(s =~= t.push(c));
                assert(join_commas(f) =~= join_commas(front).push(c));
            }
            assert forall|i: int| 0 <= i < f.len() implies !(#[trigger] f[i]).contains(',') by {
                if i < front.len() - 1 {
                    assert(f[i] == front[i]);
                } else {
                    assert(!front[front.len() - 1].contains(','));
                    assert(f[i] =~= last.push(c));
                    if last.push(c).contains(',') {
                        let j = choose|j: int| 0 <= j < last.push(c).len() && last.push(c)[j] == ',';
                        if j < last.len() {
                            assert(last[j] == ',');
                        }
                    }
                }
            }
        }
    }
}

} // verus!
