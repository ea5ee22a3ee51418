//! Definitions grouped by category, and the merge that groups them.

use crate::model::{
    Definition, DefinitionCategory, DefinitionView, DefinitionsEntry, DefinitionsEntryView,
};
use vstd::prelude::*;

verus! {

/// The definitions filed under `category` in `map`: none when the category
/// is not there.
pub open spec fn filed_under(
    map: Map<DefinitionCategory, Seq<DefinitionView>>,
    category: DefinitionCategory,
) -> Seq<DefinitionView> {
    if map.contains_key(category) {
        map[category]
    } else {
        Seq::empty()
    }
}

/// The definitions that the entries of `category` give, in the order of the
/// entries.
pub open spec fn definitions_under(
    entries: Seq<DefinitionsEntryView>,
    category: DefinitionCategory,
) -> Seq<DefinitionView>
    decreases entries.len(),
{
    if entries.len() == 0 {
        Seq::empty()
    } else if entries.last().category == category {
        definitions_under(entries.drop_last(), category) + entries.last().definitions
    } else {
        definitions_under(entries.drop_last(), category)
    }
}

/// The entries merged by category: every category that an entry has, with
/// all the definitions given under it.
pub open spec fn merged(entries: Seq<DefinitionsEntryView>) -> Map<
    DefinitionCategory,
    Seq<DefinitionView>,
> {
    Map::new(
        |category: DefinitionCategory|
            exists|i: int| 0 <= i < entries.len() && #[trigger] entries[i].category == category,
        |category: DefinitionCategory| definitions_under(entries, category),
    )
}

/// No two of the entries share a category.
pub open spec fn distinct_categories(entries: Seq<DefinitionsEntryView>) -> bool {
    forall|i: int, j: int|
        0 <= i < j < entries.len() ==> (#[trigger] entries[i]).category != (
        #[trigger] entries[j]).category
}

/// A category that no entry has is given no definitions.
pub proof fn lemma_absent_category(entries: Seq<DefinitionsEntryView>, category: DefinitionCategory)
    requires
        !merged(entries).contains_key(category),
    ensures
        definitions_under(entries, category) == Seq::<DefinitionView>::empty(),
    decreases entries.len(),
{
    if entries.len() > 0 {
        assert(entries[entries.len() - 1].category != category);
        assert forall|i: int| 0 <= i < entries.drop_last().len() implies (
        #[trigger] entries.drop_last()[i]).category != category by {
            assert(entries[i].category != category);
        }
        lemma_absent_category(entries.drop_last(), category);
    }
}

/// Merging one more entry files its definitions after those that the
/// category had.
pub proof fn lemma_merged_push(entries: Seq<DefinitionsEntryView>, entry: DefinitionsEntryView)
    ensures
        merged(entries.push(entry)) == merged(entries).insert(
            entry.category,
            filed_under(merged(entries), entry.category) + entry.definitions,
        ),
{
    let after = entries.push(entry);
    let expected = merged(entries).insert(
        entry.category,
        filed_under(merged(entries), entry.category) + entry.definitions,
    );
    assert(after.drop_last() =~= entries);
    if !merged(entries).contains_key(entry.category) {
        lemma_absent_category(entries, entry.category);
        assert(Seq::<DefinitionView>::empty() + entry.definitions =~= entry.definitions);
    }
    assert forall|c: DefinitionCategory| merged(after).contains_key(c) implies expected.contains_key(
        c,
    ) by {
        let i = choose|i: int| 0 <= i < after.len() && #[trigger] after[i].category == c;
        if i < entries.len() {
            assert(entries[i].category == c);
        }
    }
    assert forall|c: DefinitionCategory| expected.contains_key(c) implies merged(after).contains_key(
        c,
    ) by {
        if c == entry.category {
            assert(after[entries.len() as int].category == c);
        } else {
            let i = choose|i: int| 0 <= i < entries.len() && #[trigger] entries[i].category == c;
            assert(after[i].category == c);
        }
    }
    assert(merged(after) =~= expected);
}

/// Where no two entries share a category, merging leaves each entry's
/// definitions as they are.
pub proof fn lemma_merged_distinct(entries: Seq<DefinitionsEntryView>, i: int)
    requires
        distinct_categories(entries),
        0 <= i < entries.len(),
    ensures
        merged(entries).contains_key(entries[i].category),
        merged(entries)[entries[i].category] == entries[i].definitions,
    decreases entries.len(),
{
    let category = entries[i].category;
    let before = entries.drop_last();
    if i == entries.len() - 1 {
        assert forall|j: int| 0 <= j < before.len() implies (#[trigger] before[j]).category
            != category by {
            assert(entries[j].category != entries[i].category);
        }
        lemma_absent_category(before, category);
        assert(Seq::<DefinitionView>::empty() + entries[i].definitions =~= entries[i].definitions);
    } else {
        assert(entries[i].category != entries[entries.len() - 1].category);
        assert forall|a: int, b: int| 0 <= a < b < before.len() implies (
        #[trigger] before[a]).category != (#[trigger] before[b]).category by {
            assert(entries[a].category != entries[b].category);
        }
        lemma_merged_distinct(before, i);
    }
}

/// Two entries of one category merge into that category alone, the
/// definitions of the first before those of the second.
pub proof fn lemma_merge_same_category(
    category: DefinitionCategory,
    first: Seq<DefinitionView>,
    second: Seq<DefinitionView>,
)
    ensures
        merged(
            seq![
                DefinitionsEntryView { definitions: first, category },
                DefinitionsEntryView { definitions: second, category },
            ],
        ) == Map::<DefinitionCategory, Seq<DefinitionView>>::empty().insert(category, first + second),
{
    let one = DefinitionsEntryView { definitions: first, category };
    let two = DefinitionsEntryView { definitions: second, category };
    let none = Seq::<DefinitionsEntryView>::empty();
    assert(merged(none) =~= Map::<DefinitionCategory, Seq<DefinitionView>>::empty());
    lemma_merged_push(none, one);
    lemma_merged_push(none.push(one), two);
    assert(none.push(one).push(two) =~= seq![one, two]);
    assert(Seq::<DefinitionView>::empty() + first =~= first);
    assert(merged(seq![one, two]) =~= Map::<DefinitionCategory, Seq<DefinitionView>>::empty().insert(
        category,
        first + second,
    ));
}

/// Definitions grouped by category: each category at most once, with the
/// definitions filed under it in the order in which they were added.
#[derive(Debug)]
pub struct Definitions {
    groups: Vec<DefinitionsEntry>,
}

impl View for Definitions {
    type V = Map<DefinitionCategory, Seq<DefinitionView>>;

    closed spec fn view(&self) -> Map<DefinitionCategory, Seq<DefinitionView>> {
        merged(self.groups.deep_view())
    }
}

impl DeepView for Definitions {
    type V = Map<DefinitionCategory, Seq<DefinitionView>>;

    open spec fn deep_view(&self) -> Map<DefinitionCategory, Seq<DefinitionView>> {
        self.view()
    }
}

impl Definitions {
    #[verifier::type_invariant]
    spec fn well_formed(&self) -> bool {
        distinct_categories(self.groups.deep_view())
    }

    /// No definitions at all.
    pub fn new() -> (definitions: Definitions)
        ensures
            definitions@ == Map::<DefinitionCategory, Seq<DefinitionView>>::empty(),
    {
        let definitions = Definitions { groups: Vec::new() };
        assert(definitions@ =~= Map::<DefinitionCategory, Seq<DefinitionView>>::empty());
        definitions
    }

    /// Files `definitions` under `category`, after those already there.
    pub fn append(&mut self, category: DefinitionCategory, definitions: Vec<Definition>)
        ensures
            final(self)@ == old(self)@.insert(
                category,
                filed_under(old(self)@, category) + definitions.deep_view(),
            ),
    {
        let mut taken = Definitions { groups: Vec::new() };
        core::mem::swap(self, &mut taken);
        proof {
            use_type_invariant(&taken);
        }
        let mut groups = taken.groups;
        let mut definitions = definitions;
        let ghost added = definitions.deep_view();
        let ghost before = groups.deep_view();
        let mut i: usize = 0;
        while i < groups.len() && groups[i].category != category
            invariant
                i <= groups.len(),
                before == groups.deep_view(),
                forall|j: int| 0 <= j < i ==> (#[trigger] before[j]).category != category,
            decreases groups.len() - i,
        {
            i = i + 1;
        }
        if i < groups.len() {
            assert(before[i as int].category == category);
            let ghost earlier = groups[i as int].definitions@;
            let ghost more = definitions@;
            groups[i].definitions.append(&mut definitions);
            proof {
                let place = i as int;
                let longer = DefinitionsEntryView {
                    definitions: before[place].definitions + added,
                    category,
                };
                assert(groups[place].definitions@ == earlier + more);
                assert(groups[place].definitions.deep_view() =~= before[place].definitions + added);
                assert(groups.deep_view() =~= before.update(place, longer));
                lemma_merged_distinct(before, place);
                lemma_merged_updated(before, place, added);
            }
        } else {
            groups.push(DefinitionsEntry { definitions, category });
            proof {
                let entry = DefinitionsEntryView { definitions: added, category };
                assert(groups.deep_view() =~= before.push(entry));
                lemma_merged_push(before, entry);
                assert forall|a: int, b: int| 0 <= a < b < before.push(entry).len() implies (
                #[trigger] before.push(entry)[a]).category != (
                #[trigger] before.push(entry)[b]).category by {
                    if b < before.len() {
                        assert(before[a].category != before[b].category);
                    } else {
                        assert(before[a].category != category);
                    }
                }
            }
        }
        *self = Definitions { groups };
    }

    /// The definitions of `entries`, merged by category: those of entries that
    /// share a category follow one another in the order of the entries.
    pub fn from_entries(entries: Vec<DefinitionsEntry>) -> (definitions: Definitions)
        ensures
            definitions@ == merged(entries.deep_view()),
    {
        let mut definitions = Definitions::new();
        let ghost all = entries.deep_view();
        assert(merged(all.take(0)) =~= Map::<DefinitionCategory, Seq<DefinitionView>>::empty());
        for entry in it: entries
            invariant
                all.len() == it.seq().len(),
                forall|j: int| 0 <= j < all.len() ==> all[j] == (#[trigger] it.seq()[j])@,
                definitions@ == merged(all.take(it.index() as int)),
        {
            proof {
                lemma_merged_push(all.take(it.index() as int), entry@);
                assert(all.take(it.index() + 1) =~= all.take(it.index() as int).push(entry@));
            }
            definitions.append(entry.category, entry.definitions);
        }
        assert(all.take(all.len() as int) =~= all);
        definitions
    }

    /// The definitions filed under `category`, if it is there.
    pub fn get(&self, category: DefinitionCategory) -> (found: Option<&Vec<Definition>>)
        ensures
            found is Some <==> self@.contains_key(category),
            found matches Some(definitions) ==> definitions.deep_view() == self@[category],
    {
        proof {
            use_type_invariant(self);
        }
        let mut i: usize = 0;
        while i < self.groups.len()
            invariant
                i <= self.groups.len(),
                distinct_categories(self.groups.deep_view()),
                forall|j: int|
                    0 <= j < i ==> (#[trigger] self.groups.deep_view()[j]).category != category,
            decreases self.groups.len() - i,
        {
            if self.groups[i].category == category {
                proof {
                    assert(self.groups.deep_view()[i as int].category == category);
                    lemma_merged_distinct(self.groups.deep_view(), i as int);
                }
                return Some(&self.groups[i].definitions);
            }
            i = i + 1;
        }
        proof {
            if self@.contains_key(category) {
                let j = choose|j: int|
                    0 <= j < self.groups.deep_view().len() && (
                    #[trigger] self.groups.deep_view()[j]).category == category;
                assert(false);
            }
        }
        None
    }

    /// Whether no category is there.
    pub fn is_empty(&self) -> (empty: bool)
        ensures
            empty == (self@.dom() =~= Set::<DefinitionCategory>::empty()),
    {
        proof {
            if self.groups.len() > 0 {
                assert(self.groups.deep_view()[0].category == self.groups[0].category);
                assert(self@.contains_key(self.groups[0].category));
            }
        }
        self.groups.len() == 0
    }

    /// The groups, one entry for each category that is there.
    pub fn entries(&self) -> (entries: &Vec<DefinitionsEntry>)
        ensures
            distinct_categories(entries.deep_view()),
            merged(entries.deep_view()) == self@,
    {
        proof {
            use_type_invariant(self);
        }
        &self.groups
    }

    /// The groups, one entry for each category that is there.
    pub fn into_entries(self) -> (entries: Vec<DefinitionsEntry>)
        ensures
            distinct_categories(entries.deep_view()),
            merged(entries.deep_view()) == self@,
    {
        proof {
            use_type_invariant(&self);
        }
        self.groups
    }
}

impl Clone for Definitions {
    fn clone(&self) -> (copy: Definitions)
        ensures
            copy@ == self@,
    {
        proof {
            use_type_invariant(self);
        }
        let mut groups: Vec<DefinitionsEntry> = Vec::new();
        let mut i: usize = 0;
        while i < self.groups.len()
            invariant
                i <= self.groups.len(),
                groups.len() == i,
                forall|j: int| 0 <= j < i ==> groups[j]@ == self.groups[j]@,
            decreases self.groups.len() - i,
        {
            groups.push(self.groups[i].clone());
            i = i + 1;
        }
        assert(groups.deep_view() =~= self.groups.deep_view());
        Definitions { groups }
    }
}

/// Adding definitions to an entry adds them to its category in the merge.
proof fn lemma_merged_updated(
    entries: Seq<DefinitionsEntryView>,
    i: int,
    added: Seq<DefinitionView>,
)
    requires
        distinct_categories(entries),
        0 <= i < entries.len(),
    ensures
        distinct_categories(
            entries.update(
                i,
                DefinitionsEntryView {
                    definitions: entries[i].definitions + added,
                    category: entries[i].category,
                },
            ),
        ),
        merged(
            entries.update(
                i,
                DefinitionsEntryView {
                    definitions: entries[i].definitions + added,
                    category: entries[i].category,
                },
            ),
        ) == merged(entries).insert(
            entries[i].category,
            filed_under(merged(entries), entries[i].category) + added,
        ),
{
    let category = entries[i].category;
    let after = entries.update(
        i,
        DefinitionsEntryView { definitions: entries[i].definitions + added, category },
    );
    let expected = merged(entries).insert(category, filed_under(merged(entries), category) + added);
    assert forall|a: int, b: int| 0 <= a < b < after.len() implies (#[trigger] after[a]).category
        != (#[trigger] after[b]).category by {
        assert(entries[a].category != entries[b].category);
    }
    lemma_merged_distinct(entries, i);
    assert forall|c: DefinitionCategory| merged(after).contains_key(c) implies expected.contains_key(
        c,
    ) && merged(after)[c] == expected[c] by {
        let j = choose|j: int| 0 <= j < after.len() && #[trigger] after[j].category == c;
        lemma_merged_distinct(after, j);
        if j != i {
            assert(entries[j].category == c);
            lemma_merged_distinct(entries, j);
        }
    }
    assert forall|c: DefinitionCategory| expected.contains_key(c) implies merged(after).contains_key(
        c,
    ) by {
        if c == category {
            assert(after[i].category == c);
        } else {
            let j = choose|j: int| 0 <= j < entries.len() && #[trigger] entries[j].category == c;
            assert(after[j].category == c);
        }
    }
    assert(merged(after) =~= expected);
}

} // verus!
