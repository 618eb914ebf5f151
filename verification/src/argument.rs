//! The arguments of an expansion: single paths and streams of paths, and
//! how command-line tokens become them.

use crate::expansion::{chained, lemma_resolved_concat, Expansion, ExpansionView, Snapshot};
use crate::stream::{lemma_paths_view, runs, split_stream};
use crate::walk::WalkDirOptions;
use vstd::prelude::*;
use vstd::std_specs::convert::IntoSpec;

verus! {

/// The byte of the token `-`, which stands for standard input.
pub const DASH: u8 = 0x2D;

/// One input of an expansion.
#[derive(Clone, Debug, PartialEq, Eq)]
pub enum Argument {
    /// The whole content of a byte source that holds delimiter-separated
    /// paths: standard input, or a list file.
    Reader(Vec<u8>),
    /// A single path, which may or may not exist.
    Path(Vec<u8>),
}

/// An `Argument` with its bytes as a sequence.
pub enum ArgumentView {
    Reader(Seq<u8>),
    Path(Seq<u8>),
}

impl DeepView for Argument {
    type V = ArgumentView;

    open spec fn deep_view(&self) -> ArgumentView {
        match *self {
            Argument::Reader(data) => ArgumentView::Reader(data@),
            Argument::Path(path) => ArgumentView::Path(path@),
        }
    }
}

impl ArgumentView {
    /// The paths that the argument names: a path itself, and the runs of a
    /// stream.
    pub open spec fn names(self, split: u8) -> Seq<Seq<u8>> {
        match self {
            ArgumentView::Reader(data) => runs(data, split),
            ArgumentView::Path(path) => seq![path],
        }
    }
}

/// The paths that the arguments name, argument after argument.
pub open spec fn named_paths(args: Seq<ArgumentView>, split: u8) -> Seq<Seq<u8>> {
    args.map_values(|arg: ArgumentView| arg.names(split)).flatten()
}

/// Whether a token is the sentinel for standard input: exactly `-`.
pub open spec fn is_sentinel(token: Seq<u8>) -> bool {
    token == seq![DASH]
}

/// Whether any of the tokens is the sentinel.
pub open spec fn has_sentinel(tokens: Seq<Seq<u8>>) -> bool {
    exists|i: int| 0 <= i < tokens.len() && is_sentinel(#[trigger] tokens[i])
}

/// The arguments that a list of tokens stands for, in their order. A token
/// other than the sentinel is a path. The first sentinel is the stream of
/// standard input, at its place among the paths; any later one stands for
/// nothing.
pub open spec fn classified(tokens: Seq<Seq<u8>>, stdin: Seq<u8>) -> Seq<ArgumentView>
    decreases tokens.len(),
{
    if tokens.len() == 0 {
        Seq::empty()
    } else {
        let before = classified(tokens.drop_last(), stdin);
        if !is_sentinel(tokens.last()) {
            before.push(ArgumentView::Path(tokens.last()))
        } else if has_sentinel(tokens.drop_last()) {
            before
        } else {
            before.push(ArgumentView::Reader(stdin))
        }
    }
}

impl Argument {
    /// The paths that this argument names.
    pub fn paths(self, split: u8) -> (paths: Vec<Vec<u8>>)
        ensures
            paths.deep_view() == self.deep_view().names(split),
    {
        match self {
            Argument::Reader(data) => split_stream(data.as_slice(), split),
            Argument::Path(path) => {
                let mut paths: Vec<Vec<u8>> = Vec::new();
                assert(path.deep_view() =~= path@);
                paths.push(path);
                paths
            },
        }
    }

    /// Begins the expansion of this argument into the regular files that it
    /// names.
    pub fn expand(self, split: u8, walk_opts: &Option<WalkDirOptions>) -> (run: Expansion)
        ensures
            run@ == ExpansionView::start(self.deep_view().names(split), *walk_opts),
    {
        Expansion::new(self.paths(split), *walk_opts)
    }
}

/// Whether a token is the sentinel.
fn token_is_sentinel(token: &Vec<u8>) -> (b: bool)
    ensures
        b == is_sentinel(token@),
{
    let b = token.len() == 1 && token[0] == DASH;
    proof {
        if b {
            assert(token@ =~= seq![DASH]);
        }
    }
    b
}

/// Whether the tokens ask for standard input, so that it has to be read.
pub fn reads_stdin(strs: &Vec<Vec<u8>>) -> (b: bool)
    ensures
        b == has_sentinel(strs.deep_view()),
{
    let mut i: usize = 0;
    proof {
        lemma_paths_view(*strs);
    }
    while i < strs.len()
        invariant
            i <= strs.len(),
            strs.deep_view().len() == strs@.len(),
            forall|j: int| 0 <= j < strs@.len() ==> #[trigger] strs.deep_view()[j] == strs@[j]@,
            forall|j: int| 0 <= j < i ==> !is_sentinel(#[trigger] strs.deep_view()[j]),
        decreases strs.len() - i,
    {
        if token_is_sentinel(&strs[i]) {
            assert(is_sentinel(strs.deep_view()[i as int]));
            return true;
        }
        i = i + 1;
    }
    false
}

/// With one more token at the end, there is a sentinel among the tokens
/// where there was one before or where the new token is one.
pub proof fn lemma_has_sentinel_push(tokens: Seq<Seq<u8>>, token: Seq<u8>)
    ensures
        has_sentinel(tokens.push(token)) <==> has_sentinel(tokens) || is_sentinel(token),
{
    let more = tokens.push(token);
    if has_sentinel(tokens) {
        let j = choose|j: int| 0 <= j < tokens.len() && is_sentinel(#[trigger] tokens[j]);
        assert(is_sentinel(more[j]));
    }
    if is_sentinel(token) {
        assert(is_sentinel(more[tokens.len() as int]));
    }
    if has_sentinel(more) {
        let j = choose|j: int| 0 <= j < more.len() && is_sentinel(#[trigger] more[j]);
        if j < tokens.len() {
            assert(is_sentinel(tokens[j]));
        }
    }
}

/// Turns command-line tokens into arguments. `stdin` is the content of
/// standard input; it is used where `reads_stdin` holds of the tokens, and
/// dropped where it does not.
pub fn classify(strs: Vec<Vec<u8>>, stdin: Vec<u8>) -> (args: Vec<Argument>)
    ensures
        args.deep_view() == classified(strs.deep_view(), stdin@),
{
    let ghost tokens = strs.deep_view();
    let ghost input = stdin@;
    let mut args: Vec<Argument> = Vec::new();
    let mut source: Option<Vec<u8>> = Some(stdin);
    proof {
        lemma_paths_view(strs);
    }
    for token in it: strs.into_iter()
        invariant
            it.seq() == strs@,
            tokens == strs.deep_view(),
            tokens.len() == strs@.len(),
            forall|j: int| 0 <= j < strs@.len() ==> #[trigger] tokens[j] == strs@[j]@,
            source is Some <==> !has_sentinel(tokens.take(it.index() as int)),
            source is Some ==> source.unwrap()@ == input,
            args.deep_view() == classified(tokens.take(it.index() as int), input),
    {
        proof {
            let i = it.index() as int;
            assert(tokens.take(i + 1) =~= tokens.take(i).push(token@));
            assert(tokens.take(i + 1).drop_last() =~= tokens.take(i));
            lemma_has_sentinel_push(tokens.take(i), token@);
        }
        if token_is_sentinel(&token) {
            match source.take() {
                Some(data) => {
                    args.push(Argument::Reader(data));
                },
                None => {},
            }
        } else {
            args.push(Argument::Path(token));
        }
    }
    assert(tokens.take(tokens.len() as int) =~= tokens);
    args
}

/// The contents of list files as stream arguments, one for one.
pub open spec fn as_streams(lists: Seq<Seq<u8>>) -> Seq<ArgumentView> {
    lists.map_values(|data: Seq<u8>| ArgumentView::Reader(data))
}

/// The arguments of a whole invocation: the contents of the list files as
/// streams, in their order, and after them what the tokens stand for.
pub fn batch(lists: Vec<Vec<u8>>, strs: Vec<Vec<u8>>, stdin: Vec<u8>) -> (args: Vec<Argument>)
    ensures
        args.deep_view() == as_streams(lists.deep_view()) + classified(
            strs.deep_view(),
            stdin@,
        ),
{
    let ghost all = lists.deep_view();
    let ghost stream = |data: Seq<u8>| ArgumentView::Reader(data);
    let mut args: Vec<Argument> = Vec::new();
    proof {
        lemma_paths_view(lists);
    }
    for data in it: lists.into_iter()
        invariant
            it.seq() == lists@,
            all == lists.deep_view(),
            all.len() == lists@.len(),
            forall|j: int| 0 <= j < lists@.len() ==> #[trigger] all[j] == lists@[j]@,
            args.deep_view() == as_streams(all.take(it.index() as int)),
    {
        let ghost i = it.index() as int;
        let ghost before = args.deep_view();
        proof {
            all.take(i).lemma_push_map_commute(stream, all[i]);
        }
        args.push(Argument::Reader(data));
        assert(args.deep_view() =~= before.push(ArgumentView::Reader(all[i])));
    }
    assert(all.take(all.len() as int) =~= all);
    let mut rest = classify(strs, stdin);
    args.append(&mut rest);
    args
}

/// The paths that the arguments name, argument after argument.
fn paths_of(args: Vec<Argument>, split: u8) -> (paths: Vec<Vec<u8>>)
    ensures
        paths.deep_view() == named_paths(args.deep_view(), split),
{
    let ghost all = args.deep_view();
    let ghost names = |arg: ArgumentView| arg.names(split);
    let mut paths: Vec<Vec<u8>> = Vec::new();
    for arg in it: args.into_iter()
        invariant
            it.seq() == args@,
            all == args.deep_view(),
            names == |arg: ArgumentView| arg.names(split),
            paths.deep_view() == named_paths(all.take(it.index() as int), split),
    {
        proof {
            let i = it.index() as int;
            let seen = all.take(i);
            assert(all.take(i + 1) =~= seen.push(all[i]));
            seen.lemma_push_map_commute(names, all[i]);
            seen.map_values(names).lemma_flatten_push(names(all[i]));
        }
        let mut more = arg.paths(split);
        paths.append(&mut more);
    }
    assert(all.take(all.len() as int) =~= all);
    paths
}

/// Begins the expansion of the arguments, in their order, into the regular
/// files that they name. The delimiter is the byte that `split` converts to.
pub fn expand_arguments<T: Into<u8>>(
    args: Vec<Argument>,
    split: T,
    walk_opts: Option<WalkDirOptions>,
) -> (run: Expansion)
    ensures
        exists|s: u8|
            call_ensures(T::into, (split,), s) && run@ == ExpansionView::start(
                named_paths(args.deep_view(), s),
                walk_opts,
            ),
        T::obeys_into_spec() ==> run@ == ExpansionView::start(
            named_paths(args.deep_view(), split.into_spec()),
            walk_opts,
        ),
{
    let s: u8 = split.into();
    Expansion::new(paths_of(args, s), walk_opts)
}

/// Begins the expansion of command-line tokens: of the arguments that
/// `classify` makes of them, as `expand_arguments` does.
pub fn expand_osstr<T: Into<u8>>(
    strs: Vec<Vec<u8>>,
    split: T,
    walk_opts: Option<WalkDirOptions>,
    stdin: Vec<u8>,
) -> (run: Expansion)
    ensures
        exists|s: u8|
            call_ensures(T::into, (split,), s) && run@ == ExpansionView::start(
                named_paths(classified(strs.deep_view(), stdin@), s),
                walk_opts,
            ),
        T::obeys_into_spec() ==> run@ == ExpansionView::start(
            named_paths(classified(strs.deep_view(), stdin@), split.into_spec()),
            walk_opts,
        ),
{
    expand_arguments(classify(strs, stdin), split, walk_opts)
}

/// The tokens as path arguments, one for one.
pub open spec fn as_paths(tokens: Seq<Seq<u8>>) -> Seq<ArgumentView> {
    tokens.map_values(|token: Seq<u8>| ArgumentView::Path(token))
}

/// The tokens that are no sentinel, in their order.
pub open spec fn without_sentinels(tokens: Seq<Seq<u8>>) -> Seq<Seq<u8>> {
    tokens.filter(|token: Seq<u8>| !is_sentinel(token))
}

/// Tokens without a sentinel are path arguments, one for one: standard
/// input is no part of what they stand for.
pub proof fn lemma_classified_without_sentinel(tokens: Seq<Seq<u8>>, stdin: Seq<u8>)
    requires
        !has_sentinel(tokens),
    ensures
        classified(tokens, stdin) == as_paths(tokens),
    decreases tokens.len(),
{
    let path = |token: Seq<u8>| ArgumentView::Path(token);
    if tokens.len() > 0 {
        let before = tokens.drop_last();
        assert(before.push(tokens.last()) =~= tokens);
        lemma_has_sentinel_push(before, tokens.last());
        lemma_classified_without_sentinel(before, stdin);
        before.lemma_push_map_commute(path, tokens.last());
    }
}

/// Where the first sentinel stands at `at`, the tokens before it are path
/// arguments, the stream of standard input follows at that very place, and
/// after it come the later tokens that are no sentinel.
pub proof fn lemma_classified_around_sentinel(tokens: Seq<Seq<u8>>, stdin: Seq<u8>, at: int)
    requires
        0 <= at < tokens.len(),
        is_sentinel(tokens[at]),
        !has_sentinel(tokens.take(at)),
    ensures
        classified(tokens, stdin) == as_paths(tokens.take(at)) + seq![ArgumentView::Reader(stdin)]
            + as_paths(without_sentinels(tokens.skip(at + 1))),
    decreases tokens.len(),
{
    let path = |token: Seq<u8>| ArgumentView::Path(token);
    let kept = |token: Seq<u8>| !is_sentinel(token);
    let head = as_paths(tokens.take(at)) + seq![ArgumentView::Reader(stdin)];
    let before = tokens.drop_last();
    let last = tokens.last();
    if at == tokens.len() - 1 {
        assert(before =~= tokens.take(at));
        lemma_classified_without_sentinel(before, stdin);
        assert(without_sentinels(tokens.skip(at + 1)).len() == 0) by {
            tokens.skip(at + 1).lemma_filter_len(kept);
        }
        assert(classified(tokens, stdin) =~= head + as_paths(
            without_sentinels(tokens.skip(at + 1)),
        ));
    } else {
        assert(before.take(at) =~= tokens.take(at));
        assert(is_sentinel(before[at]));
        lemma_classified_around_sentinel(before, stdin, at);
        let rest = before.skip(at + 1);
        assert(tokens.skip(at + 1) =~= rest.push(last));
        rest.lemma_filter_push(last, kept);
        if !is_sentinel(last) {
            rest.filter(kept).lemma_push_map_commute(path, last);
            assert(classified(tokens, stdin) =~= head + as_paths(
                without_sentinels(tokens.skip(at + 1)),
            ));
        }
    }
}

/// Only the first sentinel stands for standard input: a later one can be
/// taken out of the tokens, and they stand for the same arguments.
pub proof fn lemma_later_sentinel_names_nothing(
    tokens: Seq<Seq<u8>>,
    stdin: Seq<u8>,
    first: int,
    later: int,
)
    requires
        0 <= first < later < tokens.len(),
        is_sentinel(tokens[first]),
        !has_sentinel(tokens.take(first)),
        is_sentinel(tokens[later]),
    ensures
        classified(tokens.remove(later), stdin) == classified(tokens, stdin),
{
    let kept = |token: Seq<u8>| !is_sentinel(token);
    let fewer = tokens.remove(later);
    let rest = tokens.skip(first + 1);
    let near = rest.take(later - first - 1);
    let far = rest.skip(later - first);
    lemma_classified_around_sentinel(tokens, stdin, first);
    lemma_classified_around_sentinel(fewer, stdin, first);
    assert(rest =~= near + seq![tokens[later]] + far);
    assert(fewer.skip(first + 1) =~= near + far);
    Seq::filter_distributes_over_add(near + seq![tokens[later]], far, kept);
    Seq::filter_distributes_over_add(near, seq![tokens[later]], kept);
    Seq::filter_distributes_over_add(near, far, kept);
    assert(seq![tokens[later]].filter(kept) =~= Seq::<Seq<u8>>::empty()) by {
        Seq::<Seq<u8>>::empty().lemma_filter_push(tokens[later], kept);
        Seq::<Seq<u8>>::empty().lemma_filter_len(kept);
    }
}

/// Standard input is read for one argument at most: tokens stand for a
/// stream exactly where their first sentinel stands, and for paths
/// everywhere else.
pub proof fn lemma_one_stream(tokens: Seq<Seq<u8>>, stdin: Seq<u8>, at: int)
    requires
        0 <= at < tokens.len(),
        is_sentinel(tokens[at]),
        !has_sentinel(tokens.take(at)),
    ensures
        forall|k: int|
            0 <= k < classified(tokens, stdin).len() ==> (#[trigger] classified(tokens, stdin)[k]
                is Reader <==> k == at),
{
    lemma_classified_around_sentinel(tokens, stdin, at);
}

/// The files that the arguments expand to on a file system that holds
/// still, or `None` where a walk fails: the files that the paths they name
/// resolve to, in the order of the arguments.
pub open spec fn expansion(
    snapshot: Snapshot,
    args: Seq<ArgumentView>,
    split: u8,
    walk_opts: Option<WalkDirOptions>,
) -> Option<Seq<Seq<u8>>> {
    snapshot.resolved(named_paths(args, split), walk_opts)
}

/// The paths that a list of arguments names are those of its first part
/// followed by those of the rest.
pub proof fn lemma_named_paths_concat(first: Seq<ArgumentView>, rest: Seq<ArgumentView>, split: u8)
    ensures
        named_paths(first + rest, split) == named_paths(first, split) + named_paths(rest, split),
{
    let names = |arg: ArgumentView| arg.names(split);
    assert((first + rest).map_values(names) =~= first.map_values(names) + rest.map_values(names));
    vstd::seq_lib::lemma_flatten_concat(first.map_values(names), rest.map_values(names));
}

/// Path arguments name their own paths, one for one.
pub proof fn lemma_paths_name_themselves(paths: Seq<Seq<u8>>, split: u8)
    ensures
        named_paths(as_paths(paths), split) == paths,
    decreases paths.len(),
{
    let path = |token: Seq<u8>| ArgumentView::Path(token);
    let names = |arg: ArgumentView| arg.names(split);
    if paths.len() > 0 {
        let before = paths.drop_last();
        lemma_paths_name_themselves(before, split);
        assert(before.push(paths.last()) =~= paths);
        before.lemma_push_map_commute(path, paths.last());
        as_paths(before).lemma_push_map_commute(names, ArgumentView::Path(paths.last()));
        as_paths(before).map_values(names).lemma_flatten_push(seq![paths.last()]);
    }
}

/// Arguments expand one after the other: the files of a list of arguments
/// are those of its first part followed by those of the rest.
pub proof fn lemma_expansion_concat(
    snapshot: Snapshot,
    first: Seq<ArgumentView>,
    rest: Seq<ArgumentView>,
    split: u8,
    walk_opts: Option<WalkDirOptions>,
)
    ensures
        expansion(snapshot, first + rest, split, walk_opts) == chained(
            expansion(snapshot, first, split, walk_opts),
            expansion(snapshot, rest, split, walk_opts),
        ),
{
    lemma_named_paths_concat(first, rest, split);
    lemma_resolved_concat(
        snapshot,
        named_paths(first, split),
        named_paths(rest, split),
        walk_opts,
    );
}

/// A stream expands as the paths that are its runs do: it is itself no part
/// of the result.
pub proof fn lemma_stream_expands_as_its_paths(
    snapshot: Snapshot,
    data: Seq<u8>,
    split: u8,
    walk_opts: Option<WalkDirOptions>,
)
    ensures
        expansion(snapshot, seq![ArgumentView::Reader(data)], split, walk_opts) == expansion(
            snapshot,
            as_paths(runs(data, split)),
            split,
            walk_opts,
        ),
{
    let names = |arg: ArgumentView| arg.names(split);
    let stream = seq![ArgumentView::Reader(data)];
    stream.map_values(names).lemma_flatten_one_element();
    lemma_paths_name_themselves(runs(data, split), split);
}

/// Standard input expands in place: where the first sentinel stands at
/// `at`, the files are those of the tokens before it, then those of the
/// paths that standard input holds, then those of the later tokens that are
/// no sentinel.
pub proof fn lemma_stdin_expands_in_place(
    snapshot: Snapshot,
    tokens: Seq<Seq<u8>>,
    stdin: Seq<u8>,
    at: int,
    split: u8,
    walk_opts: Option<WalkDirOptions>,
)
    requires
        0 <= at < tokens.len(),
        is_sentinel(tokens[at]),
        !has_sentinel(tokens.take(at)),
    ensures
        expansion(snapshot, classified(tokens, stdin), split, walk_opts) == chained(
            chained(
                snapshot.resolved(tokens.take(at), walk_opts),
                snapshot.resolved(runs(stdin, split), walk_opts),
            ),
            snapshot.resolved(without_sentinels(tokens.skip(at + 1)), walk_opts),
        ),
{
    let names = |arg: ArgumentView| arg.names(split);
    let before = as_paths(tokens.take(at));
    let stream = seq![ArgumentView::Reader(stdin)];
    let after = as_paths(without_sentinels(tokens.skip(at + 1)));
    lemma_classified_around_sentinel(tokens, stdin, at);
    lemma_expansion_concat(snapshot, before + stream, after, split, walk_opts);
    lemma_expansion_concat(snapshot, before, stream, split, walk_opts);
    lemma_paths_name_themselves(tokens.take(at), split);
    lemma_paths_name_themselves(without_sentinels(tokens.skip(at + 1)), split);
    stream.map_values(names).lemma_flatten_one_element();
}

/// Without a sentinel among them, the tokens expand as the paths they are.
pub proof fn lemma_tokens_expand_as_paths(
    snapshot: Snapshot,
    tokens: Seq<Seq<u8>>,
    stdin: Seq<u8>,
    split: u8,
    walk_opts: Option<WalkDirOptions>,
)
    requires
        !has_sentinel(tokens),
    ensures
        expansion(snapshot, classified(tokens, stdin), split, walk_opts) == snapshot.resolved(
            tokens,
            walk_opts,
        ),
{
    lemma_classified_without_sentinel(tokens, stdin);
    lemma_paths_name_themselves(tokens, split);
}

} // verus!
