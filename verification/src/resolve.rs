//! Finding programs and joining paths. Which paths exist is told by the caller.
use vstd::prelude::*;

use crate::text::{cat, cat3, chars, has_char, has_text, texts};

verus! {

/// The first of `candidates` that exists.
pub open spec fn first_present(
    candidates: Seq<Seq<char>>,
    existing: Seq<Seq<char>>,
) -> Option<Seq<char>>
    decreases candidates.len(),
{
    if candidates.len() == 0 {
        None
    } else if existing.contains(candidates[0]) {
        Some(candidates[0])
    } else {
        first_present(candidates.skip(1), existing)
    }
}

/// The program to run: an explicit path that exists, else the first candidate
/// that exists, else the preferred name.
pub open spec fn resolved(
    preferred: Seq<char>,
    candidates: Seq<Seq<char>>,
    existing: Seq<Seq<char>>,
) -> Seq<char> {
    if preferred.contains('/') && existing.contains(preferred) {
        preferred
    } else {
        match first_present(candidates, existing) {
            Some(found) => found,
            None => preferred,
        }
    }
}

/// The first of `candidates` that exists.
pub fn find_present(candidates: &Vec<String>, existing: &Vec<String>) -> (r: Option<String>)
    ensures
        crate::json::text_in(r) == first_present(texts(candidates@), texts(existing@)),
{
    let ghost all = texts(candidates@);
    assert(all.skip(0) =~= all);
    for i in 0..candidates.len()
        invariant
            all == texts(candidates@),
            first_present(all, texts(existing@)) == first_present(
                all.skip(i as int),
                texts(existing@),
            ),
    {
        assert(all.skip(i as int)[0] == candidates@[i as int]@);
        assert(all.skip(i as int).skip(1) =~= all.skip(i + 1));
        if has_text(existing, candidates[i].as_str()) {
            return Some(candidates[i].clone());
        }
    }
    None
}

/// The program to run: an explicit path that exists wins, otherwise the first
/// candidate that exists; as a last resort the name itself.
pub fn resolve_in(preferred: &str, candidates: &Vec<String>, existing: &Vec<String>) -> (r: String)
    ensures
        r@ == resolved(preferred@, texts(candidates@), texts(existing@)),
{
    if has_char(preferred, '/') && has_text(existing, preferred) {
        return preferred.to_owned();
    }
    match find_present(candidates, existing) {
        Some(found) => found,
        None => preferred.to_owned(),
    }
}

/// An explicit path that exists wins; otherwise the program is the first candidate
/// that exists; and where none does it is the preferred name.
pub proof fn law_resolved(
    preferred: Seq<char>,
    candidates: Seq<Seq<char>>,
    existing: Seq<Seq<char>>,
)
    ensures
        preferred.contains('/') && existing.contains(preferred) ==> resolved(
            preferred,
            candidates,
            existing,
        ) == preferred,
        !(preferred.contains('/') && existing.contains(preferred)) ==> {
            let program = resolved(preferred, candidates, existing);
            ||| exists|i: int|
                {
                    &&& 0 <= i < candidates.len()
                    &&& #[trigger] candidates[i] == program
                    &&& existing.contains(program)
                    &&& forall|j: int| 0 <= j < i ==> !existing.contains(#[trigger] candidates[j])
                }
            ||| program == preferred && forall|j: int|
                0 <= j < candidates.len() ==> !existing.contains(#[trigger] candidates[j])
        },
    decreases candidates.len(),
{
    if candidates.len() > 0 && !existing.contains(candidates[0]) && !(preferred.contains('/')
        && existing.contains(preferred)) {
        let rest = candidates.skip(1);
        law_resolved(preferred, rest, existing);
        let program = resolved(preferred, candidates, existing);
        assert(program == resolved(preferred, rest, existing));
        if exists|i: int|
            {
                &&& 0 <= i < rest.len()
                &&& #[trigger] rest[i] == program
                &&& existing.contains(program)
                &&& forall|j: int| 0 <= j < i ==> !existing.contains(#[trigger] rest[j])
            } {
            let i = choose|i: int|
                {
                    &&& 0 <= i < rest.len()
                    &&& #[trigger] rest[i] == program
                    &&& existing.contains(program)
                    &&& forall|j: int| 0 <= j < i ==> !existing.contains(#[trigger] rest[j])
                };
            assert(candidates[i + 1] == program);
            assert forall|j: int| 0 <= j < i + 1 implies !existing.contains(
                #[trigger] candidates[j],
            ) by {
                if j > 0 {
                    assert(rest[j - 1] == candidates[j]);
                }
            }
        } else {
            assert forall|j: int| 0 <= j < candidates.len() implies !existing.contains(
                #[trigger] candidates[j],
            ) by {
                if j > 0 {
                    assert(rest[j - 1] == candidates[j]);
                }
            }
        }
    } else if candidates.len() > 0 && existing.contains(candidates[0]) {
        assert(candidates[0] == first_present(candidates, existing)->0);
    }
}

/// The path of `rest` below the directory `base`.
pub open spec fn below(base: Seq<char>, rest: Seq<char>) -> Seq<char> {
    if base.len() == 0 || base.last() == '/' {
        base + rest
    } else {
        base + "/"@ + rest
    }
}

/// The path of `rest` below the directory `base`: a slash stands between them
/// unless `base` is empty or ends in one.
pub fn join_path(base: &str, rest: &str) -> (r: String)
    ensures
        r@ == below(base@, rest@),
{
    let all = chars(base);
    if all.len() == 0 || all[all.len() - 1] == '/' {
        cat(base, rest)
    } else {
        cat3(base, "/", rest)
    }
}

/// The first candidate that exists is found; none where none exists.
pub proof fn law_first_present(candidates: Seq<Seq<char>>, existing: Seq<Seq<char>>)
    ensures
        match first_present(candidates, existing) {
            Some(found) => exists|i: int|
                {
                    &&& 0 <= i < candidates.len()
                    &&& #[trigger] candidates[i] == found
                    &&& existing.contains(found)
                    &&& forall|j: int| 0 <= j < i ==> !existing.contains(#[trigger] candidates[j])
                },
            None => forall|j: int|
                0 <= j < candidates.len() ==> !existing.contains(#[trigger] candidates[j]),
        },
    decreases candidates.len(),
{
    if candidates.len() > 0 && !existing.contains(candidates[0]) {
        let rest = candidates.skip(1);
        law_first_present(rest, existing);
        match first_present(candidates, existing) {
            Some(found) => {
                let i = choose|i: int|
                    {
                        &&& 0 <= i < rest.len()
                        &&& #[trigger] rest[i] == found
                        &&& existing.contains(found)
                        &&& forall|j: int| 0 <= j < i ==> !existing.contains(#[trigger] rest[j])
                    };
                assert(candidates[i + 1] == found);
                assert forall|j: int| 0 <= j < i + 1 implies !existing.contains(
                    #[trigger] candidates[j],
                ) by {
                    if j > 0 {
                        assert(rest[j - 1] == candidates[j]);
                    }
                }
            },
            None => {
                assert forall|j: int| 0 <= j < candidates.len() implies !existing.contains(
                    #[trigger] candidates[j],
                ) by {
                    if j > 0 {
                        assert(rest[j - 1] == candidates[j]);
                    }
                }
            },
        }
    } else if candidates.len() > 0 {
        assert(candidates[0] == first_present(candidates, existing)->0);
    }
}

/// A path below another begins with that one and ends with its own part, with one
/// slash between them where the one above does not end with one.
pub proof fn law_below(base: Seq<char>, rest: Seq<char>)
    ensures
        base.is_prefix_of(below(base, rest)),
        rest.is_suffix_of(below(base, rest)),
        base.len() > 0 && base.last() != '/' ==> below(base, rest) == base.push('/') + rest,
        base.len() == 0 || base.last() == '/' ==> below(base, rest) == base + rest,
{
    reveal_strlit("/");
    let all = below(base, rest);
    assert(all.subrange(0, base.len() as int) =~= base);
    assert(all.subrange(all.len() - rest.len(), all.len() as int) =~= rest);
    assert(base + "/"@ + rest =~= base.push('/') + rest);
}

} // verus!
