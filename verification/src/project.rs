//! The call sites of the files of a project.

use vstd::prelude::*;
use crate::calls::calls_of;
use crate::extract::{calls_of_file, fetch_calls, get_symbol_query, query_for};
use crate::lang::LanguageQuery;
use crate::node::{
    anonymous_all, identified, lemma_identified_both, views, CodeNode, Symbol,
};
use crate::parse::ExtractError;
use crate::syntax::SyntaxNode;

verus! {

/// A source file: its path, its text, and the adapter for its language
/// where the library has one.
#[derive(Debug)]
pub struct SourceUnit {
    /// The path of the file.
    pub path: String,
    /// The text of the file.
    pub code: String,
    /// The adapter for the language of the file, told by its extension.
    pub language: Option<LanguageQuery>,
}

impl SourceUnit {
    /// The file `path` with the extension `extension` and the text `code`.
    pub fn new(path: &str, extension: &str, code: &str) -> (unit: SourceUnit)
        ensures
            unit.path@ == path@,
            unit.code@ == code@,
            unit.language == query_for(extension@),
    {
        SourceUnit {
            path: path.to_owned(),
            code: code.to_owned(),
            language: get_symbol_query(extension),
        }
    }
}

/// `calls` are the call sites of `unit`: those of a syntax tree that fits
/// its text, or none where the library has no adapter for its language.
pub open spec fn unit_calls(unit: SourceUnit, calls: Seq<Symbol>) -> bool {
    match unit.language {
        Some(query) => exists|root: SyntaxNode| #[trigger]
            root.fits(unit.code@) && calls == calls_of(&query, unit.code@, unit.path@, &root),
        None => calls == Seq::<Symbol>::empty(),
    }
}

/// `calls` are the call sites of `units`: those of the first file in their
/// order, then those of the second, and so on to the last.
pub open spec fn project_calls(units: Seq<SourceUnit>, calls: Seq<Symbol>) -> bool {
    exists|parts: Seq<Seq<Symbol>>|
        {
            &&& parts.len() == units.len()
            &&& forall|i: int| 0 <= i < units.len() ==> unit_calls(units[i], #[trigger] parts[i])
            &&& calls == parts.flatten()
        }
}

/// The library has an adapter for the language of none of `units`.
pub open spec fn no_adapter(units: Seq<SourceUnit>) -> bool {
    forall|i: int| 0 <= i < units.len() ==> (#[trigger] units[i]).language is None
}

/// The error of the first of `outcomes` that is a failure, if one is.
pub open spec fn first_failure(
    outcomes: Seq<Option<Result<Vec<CodeNode>, ExtractError>>>,
) -> Option<ExtractError>
    decreases outcomes.len(),
{
    if outcomes.len() == 0 {
        None
    } else {
        match outcomes[0] {
            Some(Err(error)) => Some(error),
            _ => first_failure(outcomes.drop_first()),
        }
    }
}

/// The call sites that the outcome of one file holds: its list where the
/// file was parsed, and none where it was skipped or failed.
pub open spec fn list_of(outcome: Option<Result<Vec<CodeNode>, ExtractError>>) -> Seq<CodeNode> {
    match outcome {
        Some(Ok(calls)) => calls@,
        _ => Seq::empty(),
    }
}

/// For each of `outcomes`, in order, the call sites that it holds.
pub open spec fn lists_of(outcomes: Seq<Option<Result<Vec<CodeNode>, ExtractError>>>) -> Seq<
    Seq<CodeNode>,
> {
    outcomes.map_values(|outcome: Option<Result<Vec<CodeNode>, ExtractError>>| list_of(outcome))
}

/// Where none of the outcomes before `at` is a failure, the first failure
/// is the first from `at` on.
pub proof fn lemma_first_failure_from(
    outcomes: Seq<Option<Result<Vec<CodeNode>, ExtractError>>>,
    at: int,
)
    requires
        0 <= at <= outcomes.len(),
        forall|j: int| 0 <= j < at ==> !(#[trigger] outcomes[j] matches Some(Err(_))),
    ensures
        first_failure(outcomes) == first_failure(outcomes.skip(at)),
    decreases at,
{
    if at == 0 {
        assert(outcomes.skip(0) =~= outcomes);
    } else {
        assert(!(outcomes[0] matches Some(Err(_))));
        lemma_first_failure_from(outcomes.drop_first(), at - 1);
        assert(outcomes.drop_first().skip(at - 1) =~= outcomes.skip(at));
    }
}

/// What a collection over files comes to, given the outcome of each file in
/// order, where a file without adapter has none: the error of the first
/// file that failed, or, where none failed, the call sites of the files one
/// after the other.
pub fn collect_calls(outcomes: Vec<Option<Result<Vec<CodeNode>, ExtractError>>>) -> (fetched:
    Result<Vec<CodeNode>, ExtractError>)
    ensures
        match first_failure(outcomes@) {
            Some(error) => fetched == Err::<Vec<CodeNode>, ExtractError>(error),
            None => fetched matches Ok(calls) && calls@ == lists_of(outcomes@).flatten(),
        },
{
    let ghost whole = outcomes@;
    let mut all: Vec<CodeNode> = Vec::new();
    proof {
        assert(lists_of(whole.take(0)) =~= Seq::empty());
        assert(all@ =~= lists_of(whole.take(0)).flatten());
    }
    for outcome in iter: outcomes.into_iter()
        invariant
            iter.seq() == whole,
            forall|j: int|
                0 <= j < iter.index() ==> !(#[trigger] whole[j] matches Some(Err(_))),
            all@ == lists_of(whole.take(iter.index())).flatten(),
    {
        let ghost at = iter.index();
        proof {
            assert(whole.take(at + 1) =~= whole.take(at).push(outcome));
            assert(lists_of(whole.take(at + 1)) =~= lists_of(whole.take(at)).push(
                list_of(outcome),
            ));
            lists_of(whole.take(at)).lemma_flatten_push(list_of(outcome));
        }
        match outcome {
            Some(Ok(mut calls)) => {
                all.append(&mut calls);
            },
            Some(Err(error)) => {
                proof {
                    lemma_first_failure_from(whole, at);
                    assert(whole.skip(at)[0] == whole[at]);
                }
                return Err(error);
            },
            None => {
                assert(all@ + list_of(outcome) =~= all@);
            },
        }
    }
    proof {
        lemma_first_failure_from(whole, whole.len() as int);
        assert(whole.take(whole.len() as int) =~= whole);
    }
    Ok(all)
}

/// `outcome` is what collecting the call sites of `unit` came to: nothing
/// where the library has no adapter for its language, else a failure or
/// the call sites of a syntax tree that fits its text.
pub open spec fn outcome_of(
    unit: SourceUnit,
    outcome: Option<Result<Vec<CodeNode>, ExtractError>>,
) -> bool {
    match unit.language {
        Some(query) => outcome matches Some(fetched) && (fetched matches Ok(calls)
            ==> calls_of_file(&query, unit.code@, unit.path@, calls@)),
        None => outcome is None,
    }
}

/// The records of lists laid end to end are, without their identifiers,
/// the records of each list without their identifiers, laid end to end.
pub proof fn lemma_views_of_flatten(lists: Seq<Seq<CodeNode>>)
    ensures
        anonymous_all(views(lists.flatten())) == lists.map_values(
            |list: Seq<CodeNode>| anonymous_all(views(list)),
        ).flatten(),
    decreases lists.len(),
{
    let each = |list: Seq<CodeNode>| anonymous_all(views(list));
    if lists.len() == 0 {
        assert(anonymous_all(views(lists.flatten())) =~= Seq::empty());
        assert(lists.map_values(each) =~= Seq::empty());
    } else {
        let front = lists.drop_last();
        lemma_views_of_flatten(front);
        assert(lists =~= front.push(lists.last()));
        front.lemma_flatten_push(lists.last());
        assert(lists.map_values(each) =~= front.map_values(each).push(each(lists.last())));
        front.map_values(each).lemma_flatten_push(each(lists.last()));
        assert(anonymous_all(views(front.flatten() + lists.last())) =~= anonymous_all(
            views(front.flatten()),
        ) + anonymous_all(views(lists.last())));
    }
}

/// Lists of identified records, laid end to end, are identified records.
pub proof fn lemma_flatten_identified(lists: Seq<Seq<CodeNode>>)
    requires
        forall|i: int| 0 <= i < lists.len() ==> identified(views(#[trigger] lists[i])),
    ensures
        identified(views(lists.flatten())),
    decreases lists.len(),
{
    if lists.len() > 0 {
        let front = lists.drop_last();
        assert forall|i: int| 0 <= i < front.len() implies identified(
            views(#[trigger] front[i]),
        ) by {
            assert(front[i] == lists[i]);
        }
        lemma_flatten_identified(front);
        assert(lists =~= front.push(lists.last()));
        front.lemma_flatten_push(lists.last());
        assert(views(front.flatten() + lists.last()) =~= views(front.flatten()) + views(
            lists.last(),
        ));
        lemma_identified_both(views(front.flatten()), views(lists.last()));
    }
}

/// Lists that are all empty, laid end to end, are empty.
pub proof fn lemma_flatten_of_empty_lists(lists: Seq<Seq<CodeNode>>)
    requires
        forall|i: int| 0 <= i < lists.len() ==> (#[trigger] lists[i]).len() == 0,
    ensures
        lists.flatten().len() == 0,
    decreases lists.len(),
{
    if lists.len() > 0 {
        assert(lists[0].len() == 0);
        assert forall|i: int| 0 <= i < lists.drop_first().len() implies (
        #[trigger] lists.drop_first()[i]).len() == 0 by {
            assert(lists.drop_first()[i] == lists[i + 1]);
        }
        lemma_flatten_of_empty_lists(lists.drop_first());
    }
}

/// Collects the call sites of the files `units`, file after file. A file
/// for whose language the library has no adapter adds none, and is not
/// parsed: where that is so of every file, the collection succeeds and is
/// empty. The first file for which no syntax tree can be had ends the
/// collection with its error; the files after it are not parsed.
///
/// What the parser makes of a text is not stated; [`collect_calls`] says
/// what is returned for each outcome of the files.
pub fn fetch_project_calls(units: &Vec<SourceUnit>) -> (fetched: Result<
    Vec<CodeNode>,
    ExtractError,
>)
    ensures
        fetched matches Ok(calls) ==> project_calls(units@, anonymous_all(views(calls@))),
        fetched matches Ok(calls) ==> identified(views(calls@)),
        no_adapter(units@) ==> (fetched matches Ok(calls) && calls@.len() == 0),
{
    let mut outcomes: Vec<Option<Result<Vec<CodeNode>, ExtractError>>> = Vec::new();
    let mut failed = false;
    let mut i: usize = 0;
    while i < units.len() && !failed
        invariant
            i <= units.len(),
            outcomes@.len() == i,
            forall|j: int| 0 <= j < i ==> outcome_of(units@[j], #[trigger] outcomes@[j]),
            !failed ==> forall|j: int|
                0 <= j < i ==> !(#[trigger] outcomes@[j] matches Some(Err(_))),
            failed ==> i > 0 && outcomes@[i - 1] matches Some(Err(_)),
        decreases units.len() - i,
    {
        let unit = &units[i];
        let outcome = match unit.language {
            Some(query) => Some(fetch_calls(unit.path.as_str(), unit.code.as_str(), query)),
            None => None,
        };
        failed = match &outcome {
            Some(Err(_)) => true,
            _ => false,
        };
        outcomes.push(outcome);
        i = i + 1;
    }
    proof {
        let all = outcomes@;
        if failed {
            if first_failure(all) is None {
                lemma_failure_found(all, i - 1);
            }
        } else {
            lemma_first_failure_from(all, all.len() as int);
            let lists = lists_of(all);
            let parts = lists.map_values(|list: Seq<CodeNode>| anonymous_all(views(list)));
            lemma_views_of_flatten(lists);
            assert forall|j: int| 0 <= j < lists.len() implies identified(
                views(#[trigger] lists[j]),
            ) by {
                assert(outcome_of(units@[j], all[j]));
                assert(lists[j] == list_of(all[j]));
            }
            lemma_flatten_identified(lists);
            assert forall|j: int| 0 <= j < units@.len() implies unit_calls(
                units@[j],
                #[trigger] parts[j],
            ) by {
                assert(outcome_of(units@[j], all[j]));
                assert(parts[j] == anonymous_all(views(list_of(all[j]))));
                if units@[j].language is None {
                    assert(parts[j] =~= Seq::<Symbol>::empty());
                }
            }
            if no_adapter(units@) {
                assert forall|j: int| 0 <= j < lists.len() implies (#[trigger] lists[j]).len()
                    == 0 by {
                    assert(outcome_of(units@[j], all[j]));
                }
                lemma_flatten_of_empty_lists(lists);
            }
        }
        if no_adapter(units@) && failed {
            assert(outcome_of(units@[i - 1], all[i - 1]));
        }
    }
    collect_calls(outcomes)
}

/// Where one of the outcomes is a failure, there is a first failure.
pub proof fn lemma_failure_found(outcomes: Seq<Option<Result<Vec<CodeNode>, ExtractError>>>, at: int)
    requires
        0 <= at < outcomes.len(),
        outcomes[at] matches Some(Err(_)),
    ensures
        first_failure(outcomes) is Some,
    decreases at,
{
    if at > 0 && !(outcomes[0] matches Some(Err(_))) {
        lemma_failure_found(outcomes.drop_first(), at - 1);
    }
}

} // verus!
