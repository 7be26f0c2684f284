//! Lists of names as the remote service writes them: one text, with a
//! separator between the names.

use vstd::prelude::*;
use vstd::string::{StrSliceExecFns, StringExecFns};

verus! {

/// Number of characters at the front of `text` before the first separator,
/// or before the end where there is none.
pub open spec fn leading_run(text: Seq<char>, separator: char) -> nat
    decreases text.len(),
{
    if text.len() == 0 || text[0] == separator {
        0
    } else {
        1 + leading_run(text.drop_first(), separator)
    }
}

/// The names in `list`: the runs of characters between separators, first run
/// first. Where two separators meet, or one stands at either end, there is
/// no name.
pub open spec fn names_in(list: Seq<char>, separator: char) -> Seq<Seq<char>>
    decreases list.len(),
{
    let run = leading_run(list, separator) as int;
    if list.len() == 0 {
        Seq::empty()
    } else if run == 0 {
        names_in(list.skip(1), separator)
    } else if run >= list.len() {
        seq![list]
    } else {
        seq![list.take(run)] + names_in(list.skip(run + 1), separator)
    }
}

/// The leading run of a text is what stands before its first separator.
pub proof fn lemma_leading_run(text: Seq<char>, separator: char, length: int)
    requires
        0 <= length <= text.len(),
        forall|i: int| 0 <= i < length ==> text[i] != separator,
        length < text.len() ==> text[length] == separator,
    ensures
        leading_run(text, separator) == length,
    decreases text.len(),
{
    if length > 0 {
        let rest = text.drop_first();
        assert forall|i: int| 0 <= i < length - 1 implies rest[i] != separator by {
            assert(rest[i] == text[i + 1]);
        }
        lemma_leading_run(rest, separator, length - 1);
    }
}

/// No name of a list is empty, and none holds the separator.
pub proof fn lemma_names_are_runs(list: Seq<char>, separator: char)
    ensures
        forall|i: int|
            0 <= i < names_in(list, separator).len() ==> (#[trigger] names_in(
                list,
                separator,
            )[i]).len() > 0 && !names_in(list, separator)[i].contains(separator),
    decreases list.len(),
{
    let run = leading_run(list, separator) as int;
    let names = names_in(list, separator);
    lemma_run_is_clean(list, separator);
    if list.len() == 0 {
    } else if run == 0 {
        lemma_names_are_runs(list.skip(1), separator);
        assert(names == names_in(list.skip(1), separator));
    } else if run >= list.len() {
        assert(list.take(run) =~= list);
        assert(names =~= seq![list]);
        assert(names[0] == list);
    } else {
        let rest = names_in(list.skip(run + 1), separator);
        lemma_names_are_runs(list.skip(run + 1), separator);
        assert forall|i: int| 0 <= i < names.len() implies (#[trigger] names[i]).len() > 0
            && !names[i].contains(separator) by {
            if i > 0 {
                assert(names[i] == rest[i - 1]);
            }
        }
    }
}

/// The leading run fits the text and holds no separator.
proof fn lemma_run_is_clean(text: Seq<char>, separator: char)
    ensures
        leading_run(text, separator) <= text.len(),
        !text.take(leading_run(text, separator) as int).contains(separator),
        leading_run(text, separator) < text.len() ==> text[leading_run(text, separator) as int]
            == separator,
    decreases text.len(),
{
    if text.len() == 0 || text[0] == separator {
    } else {
        let rest = text.drop_first();
        lemma_run_is_clean(rest, separator);
        let run = leading_run(text, separator) as int;
        let front = text.take(run);
        if front.contains(separator) {
            let k = choose|k: int| 0 <= k < front.len() && front[k] == separator;
            assert(k > 0);
            assert(rest.take(run - 1)[k - 1] == separator);
        }
    }
}

/// The names in `list`, where `separator` stands between them.
pub fn split_names(list: &str, separator: char) -> (names: Vec<String>)
    ensures
        names.deep_view() == names_in(list@, separator),
{
    let length: usize = list.unicode_len();
    let mut names: Vec<String> = Vec::new();
    let mut start: usize = 0;
    let mut at: usize = 0;
    assert(names.deep_view() =~= Seq::<Seq<char>>::empty());
    assert(list@.skip(0) =~= list@);
    for c in it: list.chars()
        invariant
            length == list@.len(),
            it.seq() == list@,
            at == it.index(),
            start <= at <= length,
            forall|i: int| start <= i < at ==> list@[i] != separator,
            names.deep_view() + names_in(list@.skip(start as int), separator) == names_in(
                list@,
                separator,
            ),
    {
        if c == separator {
            let ghost before = names.deep_view();
            let ghost tail = list@.skip(start as int);
            proof {
                assert forall|i: int| 0 <= i < at - start implies tail[i] != separator by {
                    assert(tail[i] == list@[start + i]);
                }
                lemma_leading_run(tail, separator, at - start);
                assert(tail.skip(at - start + 1) =~= list@.skip(at + 1));
                assert(tail.skip(1) =~= list@.skip(start + 1));
            }
            if at > start {
                names.push(String::from_str(list.substring_char(start, at)));
                proof {
                    assert(tail.take(at - start) =~= list@.subrange(start as int, at as int));
                    assert(names.deep_view() =~= before.push(tail.take(at - start)));
                    assert(names.deep_view() + names_in(list@.skip(at + 1), separator) =~= before
                        + names_in(tail, separator));
                }
            }
            start = at + 1;
        }
        at += 1;
    }
    let ghost before = names.deep_view();
    let ghost tail = list@.skip(start as int);
    proof {
        assert(at == length);
        assert forall|i: int| 0 <= i < tail.len() implies tail[i] != separator by {
            assert(tail[i] == list@[start + i]);
        }
        lemma_leading_run(tail, separator, tail.len() as int);
    }
    if at > start {
        names.push(String::from_str(list.substring_char(start, at)));
        proof {
            assert(tail =~= list@.subrange(start as int, at as int));
            assert(names.deep_view() =~= before.push(tail));
            assert(names.deep_view() =~= before + names_in(tail, separator));
        }
    } else {
        assert(names.deep_view() =~= before + names_in(tail, separator));
    }
    names
}

} // verus!
