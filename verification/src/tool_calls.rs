//! Tool calls that are put together from the fragments of a stream.
use vstd::prelude::*;
use vstd::string::*;

use crate::chunk::FragmentView;
use crate::chunk::FunctionView;
use crate::chunk::ToolCallDelta;

verus! {

/// A tool call as far as its fragments have come in.
#[derive(Debug, PartialEq, Eq)]
pub struct ToolCallBuilder {
    pub id: String,
    pub name: String,
    pub arguments: String,
}

/// A tool call as a mathematical value.
pub struct CallView {
    pub id: Seq<char>,
    pub name: Seq<char>,
    pub arguments: Seq<char>,
}

impl View for ToolCallBuilder {
    type V = CallView;

    open spec fn view(&self) -> CallView {
        CallView { id: self.id@, name: self.name@, arguments: self.arguments@ }
    }
}

impl CallView {
    /// A tool call before its first fragment.
    pub open spec fn empty() -> CallView {
        CallView { id: seq![], name: seq![], arguments: seq![] }
    }

    /// The tool call with one more fragment: an identifier counts only while there is none, and
    /// name and arguments grow.
    pub open spec fn with_fragment(self, fragment: FragmentView) -> CallView {
        CallView {
            id: match fragment.id {
                Some(id) => if self.id.len() == 0 {
                    id
                } else {
                    self.id
                },
                None => self.id,
            },
            name: self.name + fragment.name_part(),
            arguments: self.arguments + fragment.arguments_part(),
        }
    }
}

/// The tool call at `index`, an empty one where there is none.
pub open spec fn call_at(calls: Map<usize, CallView>, index: usize) -> CallView {
    if calls.contains_key(index) {
        calls[index]
    } else {
        CallView::empty()
    }
}

/// Tool calls with one more fragment.
pub open spec fn with_fragment(
    calls: Map<usize, CallView>,
    fragment: FragmentView,
) -> Map<usize, CallView> {
    calls.insert(
        fragment.target(),
        call_at(calls, fragment.target()).with_fragment(fragment),
    )
}

/// Tool calls with more fragments, in their order.
pub open spec fn with_fragments(
    calls: Map<usize, CallView>,
    fragments: Seq<FragmentView>,
) -> Map<usize, CallView>
    decreases fragments.len(),
{
    if fragments.len() == 0 {
        calls
    } else {
        with_fragment(with_fragments(calls, fragments.drop_last()), fragments.last())
    }
}

/// The indices rise from one entry to the next.
pub open spec fn ascending(list: Seq<(usize, CallView)>) -> bool {
    forall|i: int, j: int| 0 <= i < j < list.len() ==> (#[trigger] list[i]).0 < (#[trigger] list[j]).0
}

/// `list` holds the entries of `calls`, each once, by rising index.
pub open spec fn lists(list: Seq<(usize, CallView)>, calls: Map<usize, CallView>) -> bool {
    &&& ascending(list)
    &&& forall|i: int|
        0 <= i < list.len() ==> calls.contains_key((#[trigger] list[i]).0) && calls[list[i].0]
            == list[i].1
    &&& forall|index: usize| #[trigger]
        calls.contains_key(index) ==> exists|i: int|
            0 <= i < list.len() && (#[trigger] list[i]).0 == index
}

/// The entries of `calls` by rising index.
pub open spec fn by_index(calls: Map<usize, CallView>) -> Seq<(usize, CallView)> {
    choose|list: Seq<(usize, CallView)>| lists(list, calls)
}

/// No tool call was begun.
pub open spec fn no_calls(calls: Map<usize, CallView>) -> bool {
    forall|index: usize| !calls.contains_key(index)
}

/// A map has only one listing by rising index.
pub proof fn lemma_listing_unique(
    a: Seq<(usize, CallView)>,
    b: Seq<(usize, CallView)>,
    calls: Map<usize, CallView>,
)
    requires
        lists(a, calls),
        lists(b, calls),
    ensures
        a == b,
{
    lemma_listing_prefix(a, b, calls, a.len() as int);
    lemma_listing_prefix(b, a, calls, b.len() as int);
    assert(a =~= b);
}

/// The first `n` entries of one listing stand at the same places in another.
proof fn lemma_listing_prefix(
    a: Seq<(usize, CallView)>,
    b: Seq<(usize, CallView)>,
    calls: Map<usize, CallView>,
    n: int,
)
    requires
        lists(a, calls),
        lists(b, calls),
        0 <= n <= a.len(),
    ensures
        n <= b.len(),
        forall|i: int| 0 <= i < n ==> a[i] == b[i],
    decreases n,
{
    if n > 0 {
        lemma_listing_prefix(a, b, calls, n - 1);
        let k = n - 1;
        assert(calls.contains_key(a[k].0));
        let j = choose|j: int| 0 <= j < b.len() && (#[trigger] b[j]).0 == a[k].0;
        if j < k {
            assert(a[j] == b[j]);
            assert(a[j].0 < a[k].0);
        }
        assert(k <= j);
        if k < j {
            assert(b[k].0 < b[j].0);
            assert(calls.contains_key(b[k].0));
            let i = choose|i: int| 0 <= i < a.len() && (#[trigger] a[i]).0 == b[k].0;
            if i < k {
                assert(a[i] == b[i]);
                assert(b[i].0 < b[k].0);
            }
            assert(a[k].0 <= a[i].0);
        }
    }
}

/// Whether a fragment is one of the tool call at `index`: it says so, or it says nothing and the
/// call is the first.
pub open spec fn belongs_to(fragment: FragmentView, index: usize) -> bool {
    fragment.index == Some(index) || (fragment.index is None && index == 0)
}

/// The arguments of the fragments for `index`, put together in their order as they stand.
pub open spec fn arguments_for(fragments: Seq<FragmentView>, index: usize) -> Seq<char>
    decreases fragments.len(),
{
    if fragments.len() == 0 {
        seq![]
    } else {
        let before = arguments_for(fragments.drop_last(), index);
        match fragments.last().function {
            Some(FunctionView { arguments: Some(arguments), .. }) => if belongs_to(
                fragments.last(),
                index,
            ) {
                before + arguments
            } else {
                before
            },
            _ => before,
        }
    }
}

/// The names of the fragments for `index`, put together in their order as they stand.
pub open spec fn name_for(fragments: Seq<FragmentView>, index: usize) -> Seq<char>
    decreases fragments.len(),
{
    if fragments.len() == 0 {
        seq![]
    } else {
        let before = name_for(fragments.drop_last(), index);
        match fragments.last().function {
            Some(FunctionView { name: Some(name), .. }) => if belongs_to(fragments.last(), index) {
                before + name
            } else {
                before
            },
            _ => before,
        }
    }
}

/// The first identifier, other than an empty one, that the fragments for `index` bring.
pub open spec fn id_for(fragments: Seq<FragmentView>, index: usize) -> Seq<char>
    decreases fragments.len(),
{
    if fragments.len() == 0 {
        seq![]
    } else {
        let before = id_for(fragments.drop_last(), index);
        match fragments.last().id {
            Some(id) => if before.len() == 0 && belongs_to(fragments.last(), index) {
                id
            } else {
                before
            },
            None => before,
        }
    }
}

/// `after` is the tool call `before` with the fragment taken in: its name and arguments follow
/// those that were there, character for character, and its identifier counts if there was none.
pub open spec fn takes_in(before: CallView, fragment: FragmentView, after: CallView) -> bool {
    &&& match fragment.function {
        Some(function) => {
            &&& match function.arguments {
                Some(arguments) => after.arguments == before.arguments + arguments,
                None => after.arguments == before.arguments,
            }
            &&& match function.name {
                Some(name) => after.name == before.name + name,
                None => after.name == before.name,
            }
        },
        None => after.arguments == before.arguments && after.name == before.name,
    }
    &&& before.id.len() > 0 ==> after.id == before.id
    &&& before.id.len() == 0 ==> match fragment.id {
        Some(id) => after.id == id,
        None => after.id.len() == 0,
    }
}

/// A fragment changes the tool call that it belongs to by just what it brings, begins it where there
/// is none, and leaves all others as they are.
pub proof fn law_one_fragment(calls: Map<usize, CallView>, fragment: FragmentView, index: usize)
    ensures
        ({
            let after = with_fragment(calls, fragment);
            &&& belongs_to(fragment, index) && calls.contains_key(index) ==> after.contains_key(
                index,
            ) && takes_in(calls[index], fragment, after[index])
            &&& belongs_to(fragment, index) && !calls.contains_key(index) ==> after.contains_key(
                index,
            ) && takes_in(
                CallView { id: seq![], name: seq![], arguments: seq![] },
                fragment,
                after[index],
            )
            &&& !belongs_to(fragment, index) ==> (after.contains_key(index) <==> calls.contains_key(
                index,
            )) && (calls.contains_key(index) ==> after[index] == calls[index])
        }),
{
    let before = call_at(calls, index);
    assert(before.name + seq![] =~= before.name);
    assert(before.arguments + seq![] =~= before.arguments);
}

/// The tool call that a fragment was added to holds the fragment's name and arguments after its own,
/// as they stand, and its identifier if it had none.
pub proof fn law_fragment_is_appended(fragment: &ToolCallDelta)
    ensures
        forall|call: &mut ToolCallBuilder| #[trigger]
            call_ensures(ToolCallBuilder::add, (call, fragment), ()) ==> {
                &&& match fragment.function {
                    Some(function) => {
                        &&& match function.arguments {
                            Some(arguments) => final(call).arguments@ == call.arguments@
                                + arguments@,
                            None => final(call).arguments@ == call.arguments@,
                        }
                        &&& match function.name {
                            Some(name) => final(call).name@ == call.name@ + name@,
                            None => final(call).name@ == call.name@,
                        }
                    },
                    None => final(call).arguments@ == call.arguments@ && final(call).name@
                        == call.name@,
                }
                &&& match fragment.id {
                    Some(id) => final(call).id@ == if call.id@.len() == 0 {
                        id@
                    } else {
                        call.id@
                    },
                    None => final(call).id@ == call.id@,
                }
            },
{
    assert forall|call: &mut ToolCallBuilder| #[trigger]
        call_ensures(ToolCallBuilder::add, (call, fragment), ()) implies {
        &&& match fragment.function {
            Some(function) => {
                &&& match function.arguments {
                    Some(arguments) => final(call).arguments@ == call.arguments@ + arguments@,
                    None => final(call).arguments@ == call.arguments@,
                }
                &&& match function.name {
                    Some(name) => final(call).name@ == call.name@ + name@,
                    None => final(call).name@ == call.name@,
                }
            },
            None => final(call).arguments@ == call.arguments@ && final(call).name@ == call.name@,
        }
        &&& match fragment.id {
            Some(id) => final(call).id@ == if call.id@.len() == 0 {
                id@
            } else {
                call.id@
            },
            None => final(call).id@ == call.id@,
        }
    } by {
        assert(final(call)@ == call@.with_fragment(fragment.deep_view()));
        assert(call.name@ + seq![] =~= call.name@);
        assert(call.arguments@ + seq![] =~= call.arguments@);
    }
}

/// A tool call's name and arguments are those of its own fragments put together in their order,
/// and its identifier is the first that one of them brings; fragments of other calls do not touch
/// it.
pub proof fn law_fragments_add_up(
    calls: Map<usize, CallView>,
    fragments: Seq<FragmentView>,
    index: usize,
)
    ensures
        call_at(with_fragments(calls, fragments), index).arguments == call_at(calls, index).arguments
            + arguments_for(fragments, index),
        call_at(with_fragments(calls, fragments), index).name == call_at(calls, index).name
            + name_for(fragments, index),
        call_at(with_fragments(calls, fragments), index).id == if call_at(calls, index).id.len()
            > 0 {
            call_at(calls, index).id
        } else {
            id_for(fragments, index)
        },
        with_fragments(calls, fragments).contains_key(index) <==> calls.contains_key(index) || exists|
            i: int,
        |
            0 <= i < fragments.len() && belongs_to(#[trigger] fragments[i], index),
    decreases fragments.len(),
{
    let before = call_at(calls, index);
    if fragments.len() == 0 {
        assert(before.arguments + seq![] =~= before.arguments);
        assert(before.name + seq![] =~= before.name);
        assert(before.id.len() == 0 ==> before.id =~= seq![]);
    } else {
        let others = fragments.drop_last();
        law_fragments_add_up(calls, others, index);
        let last = fragments.last();
        law_one_fragment(with_fragments(calls, others), last, index);
        assert(call_at(with_fragments(calls, fragments), index).arguments =~= before.arguments
            + arguments_for(fragments, index));
        assert(call_at(with_fragments(calls, fragments), index).name =~= before.name + name_for(
            fragments,
            index,
        ));
        assert(fragments[fragments.len() - 1] == last);
        assert forall|i: int| 0 <= i < others.len() implies others[i] == fragments[i] by {}
        if exists|i: int| 0 <= i < others.len() && belongs_to(#[trigger] others[i], index) {
            let i = choose|i: int| 0 <= i < others.len() && belongs_to(#[trigger] others[i], index);
            assert(belongs_to(fragments[i], index));
        }
        if exists|i: int| 0 <= i < fragments.len() && belongs_to(#[trigger] fragments[i], index) {
            let i = choose|i: int|
                0 <= i < fragments.len() && belongs_to(#[trigger] fragments[i], index);
            if i < others.len() {
                assert(belongs_to(others[i], index));
            }
        }
    }
}

/// Once a tool call has an identifier, no fragment changes it.
pub proof fn law_first_identifier_stays(
    calls: Map<usize, CallView>,
    fragments: Seq<FragmentView>,
    index: usize,
)
    requires
        call_at(calls, index).id.len() > 0,
    ensures
        call_at(with_fragments(calls, fragments), index).id == call_at(calls, index).id,
    decreases fragments.len(),
{
    if fragments.len() > 0 {
        law_first_identifier_stays(calls, fragments.drop_last(), index);
    }
}

impl ToolCallBuilder {
    /// A tool call before its first fragment.
    pub fn new() -> (call: Self)
        ensures
            call@ == CallView::empty(),
    {
        ToolCallBuilder { id: String::new(), name: String::new(), arguments: String::new() }
    }

    /// Takes in one fragment.
    pub fn add(&mut self, fragment: &ToolCallDelta)
        ensures
            final(self)@ == old(self)@.with_fragment(fragment.deep_view()),
    {
        let ghost before = self@;
        if let Some(id) = &fragment.id {
            if self.id.as_str().is_empty() {
                self.id = id.clone();
            }
        }
        if let Some(function) = &fragment.function {
            if let Some(name) = &function.name {
                self.name.append(name.as_str());
            }
            if let Some(arguments) = &function.arguments {
                self.arguments.append(arguments.as_str());
            }
        }
        proof {
            assert(before.name + seq![] =~= before.name);
            assert(before.arguments + seq![] =~= before.arguments);
        }
    }
}

/// A tool call with its index.
#[derive(Debug)]
struct Slot {
    index: usize,
    call: ToolCallBuilder,
}

/// The tool calls of a stream by index, kept in rising order.
#[derive(Debug)]
pub struct ToolCallTable {
    slots: Vec<Slot>,
}

/// Entries as a map from index to tool call.
pub open spec fn as_map(list: Seq<(usize, CallView)>) -> Map<usize, CallView> {
    Map::new(
        |index: usize| exists|i: int| 0 <= i < list.len() && (#[trigger] list[i]).0 == index,
        |index: usize| list[choose|i: int| 0 <= i < list.len() && (#[trigger] list[i]).0 == index].1,
    )
}

/// Rising entries are the listing of the map that they make.
proof fn lemma_as_map_lists(list: Seq<(usize, CallView)>)
    requires
        ascending(list),
    ensures
        lists(list, as_map(list)),
        by_index(as_map(list)) == list,
{
    let calls = as_map(list);
    assert forall|i: int| 0 <= i < list.len() implies calls.contains_key((#[trigger] list[i]).0)
        && calls[list[i].0] == list[i].1 by {
        let j = choose|j: int| 0 <= j < list.len() && (#[trigger] list[j]).0 == list[i].0;
        if j < i {
            assert(list[j].0 < list[i].0);
        } else if i < j {
            assert(list[i].0 < list[j].0);
        }
    }
    assert(lists(list, calls));
    lemma_listing_unique(list, by_index(calls), calls);
}

/// Every finite map can be listed by rising index.
pub proof fn lemma_by_index_lists(calls: Map<usize, CallView>)
    requires
        calls.dom().finite(),
    ensures
        lists(by_index(calls), calls),
    decreases calls.dom().len(),
{
    if no_calls(calls) {
        let none: Seq<(usize, CallView)> = seq![];
        assert(lists(none, calls));
    } else {
        let index = choose|index: usize| calls.contains_key(index);
        let others = calls.remove(index);
        assert(others.dom() =~= calls.dom().remove(index));
        lemma_by_index_lists(others);
        let list = by_index(others);
        lemma_as_map_lists(list);
        lemma_listing_determines(list, others);
        let p = lemma_place(list, index, list.len() as int);
        if p < list.len() {
            assert(others.contains_key(list[p].0));
        }
        let more = list.insert(p, (index, calls[index]));
        lemma_put(list, more, p, index, calls[index], false);
        lemma_as_map_lists(more);
        assert(calls =~= others.insert(index, calls[index]));
    }
}

/// A listing determines the map.
proof fn lemma_listing_determines(list: Seq<(usize, CallView)>, calls: Map<usize, CallView>)
    requires
        lists(list, calls),
    ensures
        as_map(list) == calls,
{
    lemma_as_map_lists(list);
    assert forall|k: usize| as_map(list).contains_key(k) <==> #[trigger] calls.contains_key(k) by {
        if as_map(list).contains_key(k) {
            let i = choose|i: int| 0 <= i < list.len() && (#[trigger] list[i]).0 == k;
            assert(calls.contains_key(list[i].0));
        }
        if calls.contains_key(k) {
            let i = choose|i: int| 0 <= i < list.len() && (#[trigger] list[i]).0 == k;
            assert(as_map(list).contains_key(list[i].0));
        }
    }
    assert forall|k: usize| #[trigger] as_map(list).contains_key(k) implies as_map(list)[k]
        == calls[k] by {
        let i = choose|i: int| 0 <= i < list.len() && (#[trigger] list[i]).0 == k;
        assert(calls[list[i].0] == list[i].1);
    }
    assert(as_map(list) =~= calls);
}

/// Where `index` belongs among the first `n` entries of a listing.
proof fn lemma_place(list: Seq<(usize, CallView)>, index: usize, n: int) -> (p: int)
    requires
        ascending(list),
        0 <= n <= list.len(),
        forall|i: int| n <= i < list.len() ==> index <= (#[trigger] list[i]).0,
    ensures
        0 <= p <= n,
        forall|i: int| 0 <= i < p ==> (#[trigger] list[i]).0 < index,
        forall|i: int| p <= i < list.len() ==> index <= (#[trigger] list[i]).0,
    decreases n,
{
    if n == 0 {
        0
    } else if list[n - 1].0 < index {
        assert forall|i: int| 0 <= i < n implies (#[trigger] list[i]).0 < index by {
            if i < n - 1 {
                assert(list[i].0 < list[n - 1].0);
            }
        }
        n
    } else {
        lemma_place(list, index, n - 1)
    }
}

/// The listing of finitely many tool calls holds each of them once, under its own index, and the
/// indices rise.
pub proof fn law_listing_rises(calls: Map<usize, CallView>)
    requires
        calls.dom().finite(),
    ensures
        ({
            let list = by_index(calls);
            &&& forall|i: int, j: int|
                0 <= i < j < list.len() ==> (#[trigger] list[i]).0 < (#[trigger] list[j]).0
            &&& forall|i: int|
                0 <= i < list.len() ==> calls.contains_key((#[trigger] list[i]).0) && list[i].1
                    == calls[list[i].0]
            &&& forall|index: usize| #[trigger]
                calls.contains_key(index) ==> exists|i: int|
                    0 <= i < list.len() && (#[trigger] list[i]).0 == index
        }),
{
    lemma_by_index_lists(calls);
}

/// The tool calls of a table are finitely many.
pub proof fn lemma_table_is_finite(table: ToolCallTable)
    ensures
        table@.dom().finite(),
{
    let list = table.list();
    let indices = list.map_values(|entry: (usize, CallView)| entry.0);
    vstd::seq_lib::seq_to_set_is_finite(indices);
    assert(table@.dom().subset_of(indices.to_set())) by {
        assert forall|index: usize| #[trigger] table@.dom().contains(index) implies indices.to_set().contains(
        index) by {
            let i = choose|i: int| 0 <= i < list.len() && (#[trigger] list[i]).0 == index;
            assert(indices[i] == index);
        }
    }
    vstd::set_lib::lemma_len_subset(table@.dom(), indices.to_set());
}

impl ToolCallTable {
    /// The entries in the order in which they are kept.
    pub closed spec fn list(self) -> Seq<(usize, CallView)> {
        self.slots@.map_values(|slot: Slot| (slot.index, slot.call@))
    }

    /// The indices rise from one slot to the next.
    pub closed spec fn wf(self) -> bool {
        ascending(self.list())
    }
}

impl View for ToolCallTable {
    type V = Map<usize, CallView>;

    closed spec fn view(&self) -> Map<usize, CallView> {
        as_map(self.list())
    }
}

impl ToolCallTable {
    /// A table without tool calls.
    pub fn new() -> (table: Self)
        ensures
            table.wf(),
            table@ == Map::<usize, CallView>::empty(),
    {
        let table = ToolCallTable { slots: Vec::new() };
        proof {
            assert(table@ =~= Map::<usize, CallView>::empty());
        }
        table
    }

    /// Whether there is no tool call.
    pub fn is_empty(&self) -> (b: bool)
        requires
            self.wf(),
        ensures
            b == no_calls(self@),
    {
        proof {
            lemma_as_map_lists(self.list());
            if self.slots.len() > 0 {
                assert(self@.contains_key(self.list()[0].0));
            }
        }
        self.slots.len() == 0
    }

    /// How many tool calls there are.
    pub fn len(&self) -> (n: usize)
        requires
            self.wf(),
        ensures
            n == by_index(self@).len(),
    {
        proof {
            lemma_as_map_lists(self.list());
        }
        self.slots.len()
    }

    /// The tool call that comes `position`-th by rising index.
    pub fn nth(&self, position: usize) -> (call: &ToolCallBuilder)
        requires
            self.wf(),
            position < by_index(self@).len(),
        ensures
            call@ == by_index(self@)[position as int].1,
    {
        proof {
            lemma_as_map_lists(self.list());
        }
        &self.slots[position].call
    }

    /// The position of the first slot whose index is not below `index`.
    fn position(&self, index: usize) -> (position: usize)
        requires
            self.wf(),
        ensures
            position <= self.slots.len(),
            forall|i: int| 0 <= i < position ==> (#[trigger] self.list()[i]).0 < index,
            forall|i: int|
                position <= i < self.list().len() ==> index <= (#[trigger] self.list()[i]).0,
    {
        let mut n: usize = 0;
        while n < self.slots.len() && self.slots[n].index < index
            invariant
                n <= self.slots.len(),
                forall|i: int| 0 <= i < n ==> (#[trigger] self.list()[i]).0 < index,
            decreases self.slots.len() - n,
        {
            proof {
                assert(self.list()[n as int].0 == self.slots@[n as int].index);
            }
            n = n + 1;
        }
        proof {
            if n < self.slots.len() {
                assert(self.list()[n as int].0 == self.slots@[n as int].index);
                assert forall|i: int| n <= i < self.list().len() implies index <= (
                #[trigger] self.list()[i]).0 by {
                    if n < i {
                        assert(self.list()[n as int].0 < self.list()[i].0);
                    }
                }
            }
        }
        n
    }

    /// Takes in one fragment of a tool call.
    pub fn add(&mut self, fragment: &ToolCallDelta)
        requires
            old(self).wf(),
        ensures
            final(self).wf(),
            final(self)@ == with_fragment(old(self)@, fragment.deep_view()),
    {
        let index: usize = match fragment.index {
            Some(index) => index,
            None => 0,
        };
        let position: usize = self.position(index);
        let ghost before = self.list();
        let found: bool = position < self.slots.len() && self.slots[position].index == index;
        let mut call = if found {
            self.slots.remove(position).call
        } else {
            ToolCallBuilder::new()
        };
        let ghost others = self.list();
        call.add(fragment);
        self.slots.insert(position, Slot { index, call });
        proof {
            let after = self.list();
            let p = position as int;
            assert(after =~= others.insert(p, (index, call@)));
            assert(others =~= if found {
                before.remove(p)
            } else {
                before
            });
            lemma_as_map_lists(before);
            assert(call@ == call_at(as_map(before), index).with_fragment(fragment.deep_view())) by {
                if found {
                    assert(before[p].0 == index);
                } else {
                    assert(!as_map(before).contains_key(index)) by {
                        if as_map(before).contains_key(index) {
                            let i = choose|i: int|
                                0 <= i < before.len() && (#[trigger] before[i]).0 == index;
                            assert(p <= i);
                            assert(before[p].0 == self.slots@[p + 1].index);
                            if p < i {
                                assert(before[p].0 < before[i].0);
                            }
                        }
                    }
                }
            }
            lemma_put(before, after, p, index, call@, found);
        }
    }
}

/// `after` is `before` with an entry put at its place `p`, over an old one or between its
/// neighbours.
spec fn is_put(
    before: Seq<(usize, CallView)>,
    after: Seq<(usize, CallView)>,
    p: int,
    index: usize,
    call: CallView,
    found: bool,
) -> bool {
    &&& ascending(before)
    &&& 0 <= p <= before.len()
    &&& forall|i: int| 0 <= i < p ==> (#[trigger] before[i]).0 < index
    &&& forall|i: int| p <= i < before.len() ==> index <= (#[trigger] before[i]).0
    &&& found <==> p < before.len() && before[p].0 == index
    &&& after == if found {
        before.remove(p).insert(p, (index, call))
    } else {
        before.insert(p, (index, call))
    }
}

/// Where the entries of `after` come from.
proof fn lemma_put_entries(
    before: Seq<(usize, CallView)>,
    after: Seq<(usize, CallView)>,
    p: int,
    index: usize,
    call: CallView,
    found: bool,
) -> (shift: int)
    requires
        is_put(before, after, p, index, call, found),
    ensures
        shift == 0 || shift == 1,
        after.len() == before.len() + shift,
        p < after.len(),
        after[p] == (index, call),
        forall|i: int| 0 <= i < p ==> after[i] == #[trigger] before[i],
        forall|i: int| p < i < after.len() ==> #[trigger] after[i] == before[i - shift],
        forall|i: int| p <= i < before.len() && i + shift != p ==> index < (#[trigger] before[i]).0,
{
    let shift = if found {
        0int
    } else {
        1int
    };
    assert forall|i: int| p <= i < before.len() && i + shift != p implies index < (
    #[trigger] before[i]).0 by {
        if p < i {
            assert(before[p].0 < before[i].0);
        }
    }
    shift
}

/// To put an entry at its place keeps the order.
proof fn lemma_put_keeps_order(
    before: Seq<(usize, CallView)>,
    after: Seq<(usize, CallView)>,
    p: int,
    index: usize,
    call: CallView,
    found: bool,
)
    requires
        is_put(before, after, p, index, call, found),
    ensures
        ascending(after),
{
    let shift = lemma_put_entries(before, after, p, index, call, found);
    assert forall|i: int, j: int| 0 <= i < j < after.len() implies (#[trigger] after[i]).0 < (
    #[trigger] after[j]).0 by {
        if j < p {
            assert(after[i] == before[i]);
            assert(after[j] == before[j]);
        } else if i < p {
            assert(after[i] == before[i]);
        } else if i > p {
            assert(before[i - shift].0 < before[j - shift].0);
        } else {
            assert(after[j] == before[j - shift]);
        }
    }
}

/// To put an entry at its place is to insert it into the map.
proof fn lemma_put(
    before: Seq<(usize, CallView)>,
    after: Seq<(usize, CallView)>,
    p: int,
    index: usize,
    call: CallView,
    found: bool,
)
    requires
        is_put(before, after, p, index, call, found),
    ensures
        ascending(after),
        as_map(after) == as_map(before).insert(index, call),
{
    lemma_put_keeps_order(before, after, p, index, call, found);
    let shift = lemma_put_entries(before, after, p, index, call, found);
    lemma_as_map_lists(before);
    let expected = as_map(before).insert(index, call);
    assert forall|i: int| 0 <= i < after.len() implies expected.contains_key((#[trigger] after[i]).0)
        && expected[after[i].0] == after[i].1 by {
        if i < p {
            assert(after[i] == before[i]);
        } else if i > p {
            assert(after[i] == before[i - shift]);
            assert(index < before[i - shift].0);
        }
    }
    assert forall|k: usize| #[trigger] expected.contains_key(k) implies exists|i: int|
        0 <= i < after.len() && (#[trigger] after[i]).0 == k by {
        if k == index {
            assert(after[p].0 == k);
        } else {
            let i = choose|i: int| 0 <= i < before.len() && (#[trigger] before[i]).0 == k;
            if i < p {
                assert(after[i].0 == k);
            } else {
                assert(after[i + shift] == before[i]);
            }
        }
    }
    assert(lists(after, expected));
    lemma_listing_determines(after, expected);
}

} // verus!
