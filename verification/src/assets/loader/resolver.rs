//! The table that says under which path each asset of a category lies.

use crate::assets::file::joined_text;
use crate::assets::file::Path;
use crate::assets::id::AssetId;
use crate::assets::keyed::as_map;
use crate::assets::keyed::has_key;
use crate::assets::keyed::keys_distinct;
use crate::assets::keyed::lemma_append;
use crate::assets::keyed::lemma_empty;
use crate::assets::keyed::lemma_entry;
use crate::assets::keyed::lemma_replace;
use crate::assets::keyed::same_but_value_at;
use vstd::prelude::*;

verus! {

/// The entries of a table as they were listed, each path as its text.
pub open spec fn listed(table: Seq<(AssetId, String)>) -> Seq<(AssetId, Seq<char>)> {
    Seq::new(table.len(), |i: int| (table[i].0, table[i].1@))
}

/// The table that a list of entries stands for under the base directory
/// `base`: each identifier is sent to `base`, a `/`, and the path listed for
/// it. Where an identifier is listed more than once, the last entry counts.
pub open spec fn table_of(base: Seq<char>, entries: Seq<(AssetId, Seq<char>)>) -> Map<
    AssetId,
    Seq<char>,
>
    decreases entries.len(),
{
    if entries.len() == 0 {
        Map::empty()
    } else {
        table_of(base, entries.drop_last()).insert(
            entries.last().0,
            joined_text(base, entries.last().1),
        )
    }
}

/// The table that a resolver has after it was made: that of the entries
/// listed, or the empty table where none could be read.
pub open spec fn loaded_table(base: Seq<char>, listing: Option<Seq<(AssetId, Seq<char>)>>) -> Map<
    AssetId,
    Seq<char>,
> {
    match listing {
        Some(entries) => table_of(base, entries),
        None => Map::empty(),
    }
}

/// The table of a listing holds the identifiers listed and no others, and
/// sends each to the path of its last entry.
pub proof fn lemma_table_of(base: Seq<char>, entries: Seq<(AssetId, Seq<char>)>)
    ensures
        forall|id: AssetId| table_of(base, entries).contains_key(id) <==> has_key(entries, id),
        forall|i: int|
            0 <= i < entries.len() && (forall|j: int| i < j < entries.len() ==> entries[j].0
                != entries[i].0) ==> #[trigger] table_of(base, entries)[entries[i].0]
                == joined_text(base, entries[i].1),
    decreases entries.len(),
{
    if entries.len() > 0 {
        let earlier = entries.drop_last();
        lemma_table_of(base, earlier);
        assert forall|id: AssetId| table_of(base, entries).contains_key(id) <==> has_key(
            entries,
            id,
        ) by {
            if has_key(earlier, id) {
                let i = choose|i: int| 0 <= i < earlier.len() && earlier[i].0 == id;
                assert(entries[i].0 == id);
            }
            if has_key(entries, id) && id != entries.last().0 {
                let i = choose|i: int| 0 <= i < entries.len() && entries[i].0 == id;
                assert(earlier[i].0 == id);
            }
            if id == entries.last().0 {
                assert(entries[entries.len() - 1].0 == id);
            }
        }
        assert forall|i: int|
            0 <= i < entries.len() && (forall|j: int|
                i < j < entries.len() ==> entries[j].0 != entries[i].0) implies #[trigger] table_of(
            base,
            entries,
        )[entries[i].0] == joined_text(base, entries[i].1) by {
            if i < entries.len() - 1 {
                assert(earlier[i] == entries[i]);
                assert(entries[entries.len() - 1].0 != entries[i].0);
                assert forall|j: int| i < j < earlier.len() implies earlier[j].0
                    != earlier[i].0 by {
                    assert(earlier[j] == entries[j]);
                }
                assert(table_of(base, earlier)[earlier[i].0] == joined_text(base, earlier[i].1));
            }
        }
    }
}

/// A resolver whose table could not be read resolves nothing.
pub proof fn law_unread_table_resolves_nothing(base: Seq<char>, id: AssetId)
    ensures
        !loaded_table(base, None).contains_key(id),
{
}

/// The stored entries, each path as its text.
spec fn texts(entries: Seq<(AssetId, Path)>) -> Seq<(AssetId, Seq<char>)> {
    Seq::new(entries.len(), |i: int| (entries[i].0, entries[i].1@))
}

/// Maps the identifiers of one asset category to the paths of their files.
/// It is filled once, when it is made, and never changes afterwards.
pub struct Resolver {
    base_path: Path,
    map: Option<Vec<(AssetId, Path)>>,
}

impl View for Resolver {
    type V = Map<AssetId, Seq<char>>;

    /// The table: for each identifier that can be resolved, the text of its
    /// path, base directory included.
    closed spec fn view(&self) -> Map<AssetId, Seq<char>> {
        match self.map {
            Some(entries) => as_map(texts(entries@)),
            None => Map::empty(),
        }
    }
}

impl Resolver {
    /// No identifier is stored twice.
    #[verifier::type_invariant]
    spec fn wf(&self) -> bool {
        match self.map {
            Some(entries) => keys_distinct(texts(entries@)),
            None => true,
        }
    }

    /// The base directory that every resolved path starts with.
    pub closed spec fn base(&self) -> Seq<char> {
        self.base_path@
    }

    /// Makes the resolver of the category whose files lie under `base_path`.
    ///
    /// `table` is what the category's table file held, or `None` where the
    /// file could not be read or understood. In that case the resolver is
    /// still made, with an empty table: it resolves nothing.
    pub fn new(base_path: &str, table: Option<Vec<(AssetId, String)>>) -> (resolver: Self)
        ensures
            resolver.base() == base_path@,
            resolver@ == loaded_table(
                base_path@,
                match table {
                    Some(entries) => Some(listed(entries@)),
                    None => None,
                },
            ),
    {
        let base = Path::new_owned(base_path.to_owned());
        let map = match table {
            None => None,
            Some(listing) => {
                let mut entries: Vec<(AssetId, Path)> = Vec::new();
                let mut i: usize = 0;
                proof {
                    lemma_empty::<AssetId, Seq<char>>();
                    assert(texts(entries@) =~= Seq::empty());
                    assert(listed(listing@).take(0) =~= Seq::empty());
                }
                while i < listing.len()
                    invariant
                        i <= listing@.len(),
                        base@ == base_path@,
                        keys_distinct(texts(entries@)),
                        as_map(texts(entries@)) == table_of(
                            base_path@,
                            listed(listing@).take(i as int),
                        ),
                    decreases listing@.len() - i,
                {
                    let key = listing[i].0;
                    let path = base.join(listing[i].1.as_str());
                    let ghost before = texts(entries@);
                    proof {
                        let upto = listed(listing@).take(i + 1);
                        assert(upto.drop_last() =~= listed(listing@).take(i as int));
                        assert(upto.last() == (key, listing@[i as int].1@));
                    }
                    match position(&entries, key) {
                        Some(at) => {
                            entries[at] = (key, path);
                            proof {
                                assert(same_but_value_at(before, texts(entries@), at as int));
                                lemma_replace(before, texts(entries@), at as int);
                            }
                        },
                        None => {
                            entries.push((key, path));
                            proof {
                                assert(texts(entries@) =~= before.push((key, path@)));
                                lemma_append(before, key, path@);
                            }
                        },
                    }
                    i += 1;
                }
                proof {
                    assert(listed(listing@).take(i as int) =~= listed(listing@));
                }
                Some(entries)
            },
        };
        Resolver { base_path: base, map }
    }

    /// The path under which the asset `id` lies, base directory included, or
    /// `None` where the table does not list `id`.
    pub fn get(&self, id: AssetId) -> (path: Option<Path>)
        ensures
            match path {
                Some(p) => self@.contains_key(id) && p@ == self@[id],
                None => !self@.contains_key(id),
            },
    {
        proof {
            use_type_invariant(self);
        }
        match &self.map {
            None => None,
            Some(entries) => match position(entries, id) {
                Some(at) => {
                    proof {
                        lemma_entry(texts(entries@), at as int);
                    }
                    Some(entries[at].1.clone())
                },
                None => None,
            },
        }
    }
}

/// The position at which `entries` holds `id`, if it holds it.
fn position(entries: &Vec<(AssetId, Path)>, id: AssetId) -> (at: Option<usize>)
    ensures
        match at {
            Some(i) => i < entries@.len() && entries@[i as int].0 == id,
            None => !has_key(texts(entries@), id),
        },
{
    let mut i: usize = 0;
    while i < entries.len()
        invariant
            i <= entries@.len(),
            forall|j: int| 0 <= j < i ==> entries@[j].0 != id,
        decreases entries@.len() - i,
    {
        if entries[i].0 == id {
            return Some(i);
        }
        i += 1;
    }
    None
}

} // verus!
