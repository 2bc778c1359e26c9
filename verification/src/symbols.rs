//! Symbol table builder: the first pass over the tag sequence, mapping each
//! asset id to a trimmed display name.
//!
//! Every symbol-class declaration in the stream contributes its entries, in
//! stream order; the first entry seen for an id wins and later duplicates
//! are dropped. A qualified name is trimmed by removing a fixed-length
//! prefix, the bundle's base name plus one separator character; a name
//! shorter than that prefix is an error for the whole bundle.

use vstd::prelude::*;

use crate::tags::{TagRecord, TagView};

verus! {

/// The builder's only error: a qualified name shorter than the base name
/// plus its separator, for the asset id it was declared under.
#[derive(Clone, Copy, PartialEq, Eq, Structural, Debug)]
pub enum SymbolError {
    NameTooShort { asset_id: u16 },
}

/// The trimmed display name of a qualified name: the characters after the
/// first `base.len() + 1` (base name plus one separator), or `None` when
/// the qualified name is shorter than that prefix. A name of exactly the
/// prefix length trims to the empty string.
pub open spec fn spec_trim(qualified: Seq<char>, base: Seq<char>) -> Option<Seq<char>> {
    if qualified.len() < base.len() + 1 {
        None
    } else {
        Some(qualified.subrange(base.len() as int + 1, qualified.len() as int))
    }
}

/// Trims the `base_name + separator` prefix off a qualified name; `None`
/// when the qualified name is shorter than that prefix.
pub fn trim_qualified_name(qualified: &str, base_name: &str) -> (r: Option<String>)
    ensures
        r is Some <==> spec_trim(qualified@, base_name@) is Some,
        r matches Some(name) ==> spec_trim(qualified@, base_name@) == Some(name@),
{
    let ql: usize = qualified.unicode_len();
    let bl: usize = base_name.unicode_len();
    if ql <= bl {
        return None;
    }
    let trimmed: &str = qualified.substring_char(bl + 1, ql);
    Some(trimmed.to_owned())
}

/// The declaration entries of one tag: its (id, qualified name) pairs for a
/// symbol-class declaration, nothing for every other kind.
pub open spec fn entries_of(t: TagView) -> Seq<(u16, Seq<char>)> {
    match t {
        TagView::SymbolClassDeclaration { entries } => entries,
        _ => Seq::empty(),
    }
}

/// All declaration entries of a tag sequence, in stream order.
pub open spec fn all_entries(tags: Seq<TagView>) -> Seq<(u16, Seq<char>)>
    decreases tags.len(),
{
    if tags.len() == 0 {
        Seq::empty()
    } else {
        all_entries(tags.drop_last()) + entries_of(tags.last())
    }
}

/// The table an entry list builds: scanning in order, each entry's name is
/// trimmed — the first too-short name fails the build with its asset id —
/// and the first entry seen for an id gives that id its name.
pub open spec fn spec_table(entries: Seq<(u16, Seq<char>)>, base: Seq<char>) -> Result<
    Map<u16, Seq<char>>,
    u16,
>
    decreases entries.len(),
{
    if entries.len() == 0 {
        Ok(Map::empty())
    } else {
        let (id, qualified) = entries[0];
        match spec_trim(qualified, base) {
            None => Err(id),
            Some(name) => match spec_table(entries.subrange(1, entries.len() as int), base) {
                Err(e) => Err(e),
                Ok(rest) => Ok(rest.insert(id, name)),
            },
        }
    }
}

/// The symbol table a whole tag sequence builds against a base name.
pub open spec fn spec_build_table(tags: Seq<TagView>, base: Seq<char>) -> Result<
    Map<u16, Seq<char>>,
    u16,
> {
    spec_table(all_entries(tags), base)
}

/// Appending one entry to a list either keeps the list's own failure,
/// fails on the new entry's too-short name, or extends the table exactly
/// when the new id is not yet present.
pub proof fn lemma_table_snoc(entries: Seq<(u16, Seq<char>)>, e: (u16, Seq<char>), base: Seq<char>)
    ensures
        spec_table(entries.push(e), base) == match spec_table(entries, base) {
            Err(a) => Err::<Map<u16, Seq<char>>, u16>(a),
            Ok(m) => match spec_trim(e.1, base) {
                None => Err(e.0),
                Some(name) => Ok(
                    if m.contains_key(e.0) {
                        m
                    } else {
                        m.insert(e.0, name)
                    },
                ),
            },
        },
    decreases entries.len(),
{
    reveal_with_fuel(spec_table, 3);
    if entries.len() == 0 {
        assert(entries =~= Seq::<(u16, Seq<char>)>::empty());
        assert(entries.push(e).subrange(1, 1) =~= Seq::<(u16, Seq<char>)>::empty());
        if spec_trim(e.1, base) is Some {
            let name = spec_trim(e.1, base).unwrap();
            assert(Map::<u16, Seq<char>>::empty().insert(e.0, name) =~= Map::empty().insert(
                e.0,
                name,
            ));
        }
    } else {
        let h = entries[0];
        let tail = entries.subrange(1, entries.len() as int);
        assert(entries.push(e).subrange(1, entries.push(e).len() as int) =~= tail.push(e));
        assert(entries.push(e)[0] == h);
        lemma_table_snoc(tail, e, base);
        match spec_trim(h.1, base) {
            None => {
                assert(spec_table(entries.push(e), base) == Err::<Map<u16, Seq<char>>, u16>(h.0));
                assert(spec_table(entries, base) == Err::<Map<u16, Seq<char>>, u16>(h.0));
            },
            Some(hn) => {
                match spec_table(tail, base) {
                    Err(a) => {
                        assert(spec_table(entries, base) == Err::<Map<u16, Seq<char>>, u16>(a));
                        assert(spec_table(tail.push(e), base) == Err::<
                            Map<u16, Seq<char>>,
                            u16,
                        >(a));
                        assert(spec_table(entries.push(e), base) == Err::<
                            Map<u16, Seq<char>>,
                            u16,
                        >(a));
                    },
                    Ok(mr) => {
                        match spec_trim(e.1, base) {
                            None => {},
                            Some(nm) => {
                                let m = mr.insert(h.0, hn);
                                if e.0 == h.0 {
                                    if !mr.contains_key(e.0) {
                                        assert(mr.insert(e.0, nm).insert(h.0, hn) =~= m);
                                    }
                                } else {
                                    if !mr.contains_key(e.0) {
                                        assert(mr.insert(e.0, nm).insert(h.0, hn) =~= m.insert(
                                            e.0,
                                            nm,
                                        ));
                                    }
                                }
                            },
                        }
                    },
                }
            },
        }
    }
}

/// A failed build stays failed, with the same asset id, whatever entries
/// follow.
pub proof fn lemma_table_err_persists(
    entries: Seq<(u16, Seq<char>)>,
    more: Seq<(u16, Seq<char>)>,
    base: Seq<char>,
)
    requires
        spec_table(entries, base) is Err,
    ensures
        spec_table(entries + more, base) == spec_table(entries, base),
    decreases more.len(),
{
    if more.len() == 0 {
        assert(entries + more =~= entries);
    } else {
        lemma_table_err_persists(entries, more.drop_last(), base);
        lemma_table_snoc(entries + more.drop_last(), more.last(), base);
        assert((entries + more.drop_last()).push(more.last()) =~= entries + more);
    }
}

/// Entry lists flatten tag sequences piecewise.
pub proof fn lemma_all_entries_concat(a: Seq<TagView>, b: Seq<TagView>)
    ensures
        all_entries(a + b) == all_entries(a) + all_entries(b),
    decreases b.len(),
{
    if b.len() == 0 {
        assert(a + b =~= a);
        assert(all_entries(a) + all_entries(b) =~= all_entries(a));
    } else {
        lemma_all_entries_concat(a, b.drop_last());
        assert((a + b).drop_last() =~= a + b.drop_last());
        assert((a + b).last() == b.last());
        assert(all_entries(a) + all_entries(b.drop_last()) + entries_of(b.last()) =~= all_entries(a)
            + all_entries(b));
    }
}

/// The symbol table, a map from asset id to trimmed display name.
pub struct SymbolTable {
    entries: Vec<(u16, String)>,
}

/// The map a list of (id, name) rows stands for, later rows winning.
pub closed spec fn map_of_rows(rows: Seq<(u16, String)>) -> Map<u16, Seq<char>>
    decreases rows.len(),
{
    if rows.len() == 0 {
        Map::empty()
    } else {
        map_of_rows(rows.drop_last()).insert(rows.last().0, rows.last().1@)
    }
}

impl View for SymbolTable {
    type V = Map<u16, Seq<char>>;

    closed spec fn view(&self) -> Map<u16, Seq<char>> {
        map_of_rows(self.entries@)
    }
}

proof fn lemma_rows_absent(rows: Seq<(u16, String)>, id: u16)
    requires
        forall|i: int| 0 <= i < rows.len() ==> (#[trigger] rows[i]).0 != id,
    ensures
        !map_of_rows(rows).contains_key(id),
    decreases rows.len(),
{
    if rows.len() > 0 {
        lemma_rows_absent(rows.drop_last(), id);
    }
}

proof fn lemma_rows_at(rows: Seq<(u16, String)>, id: u16, j: int)
    requires
        0 <= j < rows.len(),
        rows[j].0 == id,
        forall|i: int| j < i < rows.len() ==> (#[trigger] rows[i]).0 != id,
    ensures
        map_of_rows(rows).contains_key(id),
        map_of_rows(rows)[id] == rows[j].1@,
    decreases rows.len(),
{
    if j == rows.len() - 1 {
    } else {
        lemma_rows_at(rows.drop_last(), id, j);
    }
}

impl SymbolTable {
    /// An empty table.
    pub fn new() -> (r: SymbolTable)
        ensures
            r@ == Map::<u16, Seq<char>>::empty(),
    {
        SymbolTable { entries: Vec::new() }
    }

    /// Whether an asset id has a name in the table.
    pub fn contains(&self, id: u16) -> (r: bool)
        ensures
            r == self@.contains_key(id),
    {
        self.get(id).is_some()
    }

    /// The name of an asset id, when the table holds one.
    pub fn get(&self, id: u16) -> (r: Option<&String>)
        ensures
            r is Some <==> self@.contains_key(id),
            r matches Some(name) ==> self@[id] == name@,
    {
        let mut j: usize = self.entries.len();
        while j > 0
            invariant
                j <= self.entries@.len(),
                forall|k: int| j <= k < self.entries@.len() ==> (#[trigger] self.entries@[k]).0
                    != id,
            decreases j,
        {
            j = j - 1;
            if self.entries[j].0 == id {
                proof {
                    lemma_rows_at(self.entries@, id, j as int);
                }
                return Some(&self.entries[j].1);
            }
        }
        proof {
            lemma_rows_absent(self.entries@, id);
        }
        None
    }

    /// Puts a name under an id, replacing any earlier one.
    fn set(&mut self, id: u16, name: String)
        ensures
            final(self)@ == old(self)@.insert(id, name@),
    {
        let ghost pre = self.entries@;
        self.entries.push((id, name));
        proof {
            assert(self.entries@.drop_last() =~= pre);
        }
    }
}

/// A tag sequence without a single symbol-class declaration builds the
/// empty table, whatever the base name.
pub proof fn lemma_no_declarations_empty_table(tags: Seq<TagView>, base: Seq<char>)
    requires
        forall|i: int|
            0 <= i < tags.len() ==> !((#[trigger] tags[i]) matches TagView::SymbolClassDeclaration {
                ..
            }),
    ensures
        spec_build_table(tags, base) == Ok::<Map<u16, Seq<char>>, u16>(Map::empty()),
    decreases tags.len(),
{
    reveal_with_fuel(spec_table, 2);
    if tags.len() == 0 {
    } else {
        lemma_no_declarations_empty_table(tags.drop_last(), base);
        assert(entries_of(tags.last()) =~= Seq::<(u16, Seq<char>)>::empty());
        assert(all_entries(tags) =~= all_entries(tags.drop_last()));
    }
}

/// A qualified name of exactly the prefix length trims to the empty
/// string; it is not an error.
pub proof fn lemma_trim_exact_prefix(qualified: Seq<char>, base: Seq<char>)
    requires
        qualified.len() == base.len() + 1,
    ensures
        spec_trim(qualified, base) == Some(Seq::<char>::empty()),
{
    assert(qualified.subrange(base.len() as int + 1, qualified.len() as int) =~= Seq::<
        char,
    >::empty());
}

/// A declaration entry whose qualified name is shorter than the prefix
/// fails the whole build.
pub proof fn lemma_short_name_fails(entries: Seq<(u16, Seq<char>)>, base: Seq<char>, k: int)
    requires
        0 <= k < entries.len(),
        spec_trim(entries[k].1, base) is None,
    ensures
        spec_table(entries, base) is Err,
    decreases entries.len(),
{
    reveal_with_fuel(spec_table, 2);
    if k == 0 {
    } else {
        lemma_short_name_fails(entries.subrange(1, entries.len() as int), base, k - 1);
    }
}

/// First declaration wins: when the build succeeds, an id whose first
/// entry in stream order stands at `k` is mapped to that entry's trimmed
/// name; later duplicates do not change it.
pub proof fn lemma_first_declaration_wins(entries: Seq<(u16, Seq<char>)>, base: Seq<char>, k: int)
    requires
        spec_table(entries, base) is Ok,
        0 <= k < entries.len(),
        forall|i: int| 0 <= i < k ==> (#[trigger] entries[i]).0 != entries[k].0,
    ensures
        spec_table(entries, base).unwrap().contains_key(entries[k].0),
        spec_table(entries, base).unwrap()[entries[k].0] == spec_trim(entries[k].1, base).unwrap(),
    decreases entries.len(),
{
    reveal_with_fuel(spec_table, 2);
    let tail = entries.subrange(1, entries.len() as int);
    if k == 0 {
    } else {
        assert(entries[0].0 != entries[k].0);
        lemma_first_declaration_wins(tail, base, k - 1);
        assert(tail[k - 1] == entries[k]);
    }
}

/// Builds the symbol table for a tag sequence against the bundle's base
/// name: scans every symbol-class declaration in stream order, trims each
/// qualified name, keeps the first name seen for each id, and fails with
/// `NameTooShort` on the first qualified name shorter than the base name
/// plus its separator.
pub fn build_symbol_table(tags: &Vec<TagRecord>, base_name: &str) -> (r: Result<
    SymbolTable,
    SymbolError,
>)
    ensures
        r is Ok <==> spec_build_table(tags.deep_view(), base_name@) is Ok,
        r matches Ok(table) ==> spec_build_table(tags.deep_view(), base_name@) == Ok::<_, u16>(
            table@,
        ),
        r matches Err(SymbolError::NameTooShort { asset_id }) ==> spec_build_table(
            tags.deep_view(),
            base_name@,
        ) == Err::<Map<u16, Seq<char>>, u16>(asset_id),
{
    let ghost dv = tags.deep_view();
    let ghost base = base_name@;
    let mut table = SymbolTable::new();
    let mut i: usize = 0;
    proof {
        assert(dv.subrange(0, 0) =~= Seq::<TagView>::empty());
    }
    while i < tags.len()
        invariant
            dv == tags.deep_view(),
            base == base_name@,
            i <= dv.len(),
            spec_table(all_entries(dv.subrange(0, i as int)), base) == Ok::<_, u16>(table@),
        decreases dv.len() - i,
    {
        let ghost done = all_entries(dv.subrange(0, i as int));
        match &tags[i] {
            TagRecord::SymbolClassDeclaration { entries } => {
                let ghost tag_entries = entries.deep_view();
                proof {
                    assert(dv[i as int] == tags@[i as int].deep_view());
                    assert(entries_of(dv[i as int]) == tag_entries);
                }
                let mut j: usize = 0;
                proof {
                    assert(done + tag_entries.subrange(0, 0) =~= done);
                }
                while j < entries.len()
                    invariant
                        dv == tags.deep_view(),
                        base == base_name@,
                        i < dv.len(),
                        j <= tag_entries.len(),
                        tag_entries == entries.deep_view(),
                        entries_of(dv[i as int]) == tag_entries,
                        done == all_entries(dv.subrange(0, i as int)),
                        spec_table(done + tag_entries.subrange(0, j as int), base) == Ok::<
                            _,
                            u16,
                        >(table@),
                    decreases tag_entries.len() - j,
                {
                    let ghost prefix = done + tag_entries.subrange(0, j as int);
                    let id: u16 = entries[j].0;
                    proof {
                        assert(tag_entries[j as int] == (entries@[j as int].0,
                        entries@[j as int].1@));
                    }
                    match trim_qualified_name(entries[j].1.as_str(), base_name) {
                        None => {
                            proof {
                                lemma_table_snoc(prefix, tag_entries[j as int], base);
                                assert(prefix.push(tag_entries[j as int]) =~= done
                                    + tag_entries.subrange(0, j + 1));
                                lemma_table_err_persists(
                                    done + tag_entries.subrange(0, j + 1),
                                    tag_entries.subrange(j + 1, tag_entries.len() as int)
                                        + all_entries(dv.subrange(i + 1, dv.len() as int)),
                                    base,
                                );
                                lemma_all_entries_concat(
                                    dv.subrange(0, i + 1),
                                    dv.subrange(i + 1, dv.len() as int),
                                );
                                assert(dv.subrange(0, i + 1).drop_last() =~= dv.subrange(
                                    0,
                                    i as int,
                                ));
                                assert(all_entries(dv.subrange(0, i + 1)) == done + tag_entries);
                                assert(dv.subrange(0, i + 1) + dv.subrange(i + 1, dv.len() as int)
                                    =~= dv);
                                assert(done + tag_entries.subrange(0, j + 1) + (tag_entries.subrange(
                                    j + 1,
                                    tag_entries.len() as int,
                                ) + all_entries(dv.subrange(i + 1, dv.len() as int))) =~= all_entries(
                                    dv,
                                ));
                            }
                            return Err(SymbolError::NameTooShort { asset_id: id });
                        },
                        Some(name) => {
                            proof {
                                lemma_table_snoc(prefix, tag_entries[j as int], base);
                                assert(prefix.push(tag_entries[j as int]) =~= done
                                    + tag_entries.subrange(0, j + 1));
                            }
                            if !table.contains(id) {
                                table.set(id, name);
                            }
                        },
                    }
                    j = j + 1;
                }
                proof {
                    assert(tag_entries.subrange(0, tag_entries.len() as int) =~= tag_entries);
                    assert(dv.subrange(0, i + 1).drop_last() =~= dv.subrange(0, i as int));
                    assert(all_entries(dv.subrange(0, i + 1)) == done + tag_entries);
                }
            },
            _ => {
                proof {
                    assert(dv[i as int] == tags@[i as int].deep_view());
                    assert(entries_of(dv[i as int]) =~= Seq::<(u16, Seq<char>)>::empty());
                    assert(dv.subrange(0, i + 1).drop_last() =~= dv.subrange(0, i as int));
                    assert(done + entries_of(dv[i as int]) =~= done);
                    assert(all_entries(dv.subrange(0, i + 1)) == done);
                }
            },
        }
        i = i + 1;
    }
    proof {
        assert(dv.subrange(0, dv.len() as int) =~= dv);
    }
    Ok(table)
}

} // verus!
