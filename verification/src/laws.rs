//! Properties that hold across the operations of the library.

use vstd::prelude::*;

use crate::alias_mapping::{lookup, pairs_to_table, targets, without_collection};
use crate::paths::{join_spec, law_join_extends_base};
use crate::temp_directories::{
    preferred_temp_dir, temp_dir_of, tmp_dirs_to_clear_spec, StorageConfig, TempDirKind,
    FILE_UPLOAD_SUBDIR_NAME, TEMP_SUBDIR_NAME,
};

verus! {

/// After `alias` is made to name `collection`, looking it up gives
/// `collection`, and every other alias still names what it named before.
pub proof fn law_get_after_insert(
    table: Map<Seq<char>, Seq<char>>,
    alias: Seq<char>,
    collection: Seq<char>,
    other: Seq<char>,
)
    ensures
        lookup(table.insert(alias, collection), alias) == Some(collection),
        other != alias ==> lookup(table.insert(alias, collection), other) == lookup(table, other),
{
}

/// After `alias` is removed, looking it up gives nothing, and every other
/// alias still names what it named before.
pub proof fn law_get_after_remove(
    table: Map<Seq<char>, Seq<char>>,
    alias: Seq<char>,
    other: Seq<char>,
)
    ensures
        lookup(table.remove(alias), alias) == None::<Seq<char>>,
        other != alias ==> lookup(table.remove(alias), other) == lookup(table, other),
{
}

/// After a rename of an existing alias, the new name gives the collection
/// that the old one named, the old name gives nothing (unless it is the
/// new one), and every other alias is untouched.
pub proof fn law_rename_moves_target(
    table: Map<Seq<char>, Seq<char>>,
    old_alias: Seq<char>,
    new_alias: Seq<char>,
    other: Seq<char>,
)
    requires
        table.contains_key(old_alias),
    ensures
        lookup(table.remove(old_alias).insert(new_alias, table[old_alias]), new_alias) == lookup(
            table,
            old_alias,
        ),
        old_alias != new_alias ==> lookup(
            table.remove(old_alias).insert(new_alias, table[old_alias]),
            old_alias,
        ) == None::<Seq<char>>,
        other != old_alias && other != new_alias ==> lookup(
            table.remove(old_alias).insert(new_alias, table[old_alias]),
            other,
        ) == lookup(table, other),
{
}

/// After the aliases of a collection are removed, no alias names it, the
/// aliases of other collections are untouched, and removing them again
/// changes nothing.
pub proof fn law_remove_collection(
    table: Map<Seq<char>, Seq<char>>,
    collection: Seq<char>,
    alias: Seq<char>,
)
    ensures
        !targets(without_collection(table, collection), alias, collection),
        lookup(table, alias) != Some(collection) ==> lookup(
            without_collection(table, collection),
            alias,
        ) == lookup(table, alias),
        !(exists|a: Seq<char>| targets(without_collection(table, collection), a, collection)),
        without_collection(without_collection(table, collection), collection) == without_collection(
            table,
            collection,
        ),
{
    assert(without_collection(without_collection(table, collection), collection)
        =~= without_collection(table, collection));
}

/// Removing the aliases of a collection changes the table exactly when
/// some alias names the collection, so the table needs saving exactly then.
pub proof fn law_remove_collection_changes_iff_targeted(
    table: Map<Seq<char>, Seq<char>>,
    collection: Seq<char>,
)
    ensures
        (exists|a: Seq<char>| targets(table, a, collection)) <==> without_collection(
            table,
            collection,
        ) != table,
{
    if exists|a: Seq<char>| targets(table, a, collection) {
        let a = choose|a: Seq<char>| targets(table, a, collection);
        assert(!without_collection(table, collection).contains_key(a));
    } else {
        assert forall|a: Seq<char>| table.contains_key(a) implies table[a] != collection by {
            if table[a] == collection {
                assert(targets(table, a, collection));
            }
        }
        assert(without_collection(table, collection) =~= table);
    }
}

/// An alias exists exactly when looking it up gives a collection, and it
/// is among the aliases of a collection exactly when looking it up gives
/// that collection.
pub proof fn law_lookup_agrees(
    table: Map<Seq<char>, Seq<char>>,
    alias: Seq<char>,
    collection: Seq<char>,
)
    ensures
        table.contains_key(alias) <==> lookup(table, alias) is Some,
        targets(table, alias, collection) <==> lookup(table, alias) == Some(collection),
{
}

/// A list of pairs with distinct aliases describes exactly one table: the
/// one that maps each listed alias to its listed collection and has no
/// other alias. Writing a table out as pairs and reading them back thus
/// gives the same table.
pub proof fn law_distinct_pairs_determine_table(pairs: Seq<(Seq<char>, Seq<char>)>)
    requires
        forall|i: int, j: int|
            0 <= i < pairs.len() && 0 <= j < pairs.len() && i != j ==> pairs[i].0 != pairs[j].0,
    ensures
        forall|i: int|
            0 <= i < pairs.len() ==> #[trigger] pairs_to_table(pairs).contains_key(pairs[i].0)
                && pairs_to_table(pairs)[pairs[i].0] == pairs[i].1,
        forall|alias: Seq<char>|
            #[trigger] pairs_to_table(pairs).contains_key(alias) ==> exists|i: int|
                0 <= i < pairs.len() && pairs[i].0 == alias,
    decreases pairs.len(),
{
    if pairs.len() > 0 {
        let rest = pairs.drop_last();
        let n = pairs.len() - 1;
        assert forall|i: int, j: int|
            0 <= i < rest.len() && 0 <= j < rest.len() && i != j implies rest[i].0 != rest[j].0 by {
            assert(rest[i] == pairs[i] && rest[j] == pairs[j]);
        }
        law_distinct_pairs_determine_table(rest);
        assert forall|i: int| 0 <= i < pairs.len() implies #[trigger] pairs_to_table(
            pairs,
        ).contains_key(pairs[i].0) && pairs_to_table(pairs)[pairs[i].0] == pairs[i].1 by {
            assert(pairs_to_table(pairs) == pairs_to_table(rest).insert(pairs[n].0, pairs[n].1));
            if i < n {
                assert(rest[i] == pairs[i]);
                assert(pairs[i].0 != pairs[n].0);
                assert(pairs_to_table(rest).contains_key(rest[i].0));
            }
        }
        assert forall|alias: Seq<char>| #[trigger]
            pairs_to_table(pairs).contains_key(alias) implies exists|i: int|
            0 <= i < pairs.len() && pairs[i].0 == alias by {
            if alias != pairs[n].0 {
                assert(pairs_to_table(rest).contains_key(alias));
                let i = choose|i: int| 0 <= i < rest.len() && rest[i].0 == alias;
                assert(pairs[i] == rest[i]);
            }
        }
    }
}

/// The temporary directory under a root lies strictly below that root, so
/// removing it never removes the root or what lies beside the temporary
/// directory.
pub proof fn law_temp_dir_below_root(root: Seq<char>)
    ensures
        root.is_prefix_of(temp_dir_of(root)),
        temp_dir_of(root).len() > root.len(),
{
    reveal_strlit("tmp");
    law_join_extends_base(root, TEMP_SUBDIR_NAME@);
}

/// The upload directory lies strictly below the temporary directory it is
/// made in.
pub proof fn law_upload_dir_below_temp_dir(temp_dir: Seq<char>)
    ensures
        temp_dir.is_prefix_of(join_spec(temp_dir, FILE_UPLOAD_SUBDIR_NAME@)),
        join_spec(temp_dir, FILE_UPLOAD_SUBDIR_NAME@).len() > temp_dir.len(),
{
    reveal_strlit("upload");
    law_join_extends_base(temp_dir, FILE_UPLOAD_SUBDIR_NAME@);
}

/// Removing the aliases of a collection keeps exactly the aliases that name
/// another collection, each still naming what it named; an alias that named
/// the collection is gone.
pub proof fn law_remove_collection_keeps_exactly_others(
    table: Map<Seq<char>, Seq<char>>,
    collection: Seq<char>,
)
    ensures
        forall|alias: Seq<char>|
            #[trigger] without_collection(table, collection).contains_key(alias) <==> (
            table.contains_key(alias) && table[alias] != collection),
        forall|alias: Seq<char>|
            #[trigger] without_collection(table, collection).contains_key(alias) ==> without_collection(
                table,
                collection,
            )[alias] == table[alias],
        forall|alias: Seq<char>|
            table.contains_key(alias) && table[alias] == collection ==> !(#[trigger] without_collection(
                table,
                collection,
            ).contains_key(alias)),
{
}

/// Start-up cleanup removes the snapshots candidate first, then the
/// storage candidate, then the optional one when it is given, and nothing
/// else, whatever the paths are.
pub proof fn law_cleanup_lists_every_candidate(
    snapshots_tmp: Seq<char>,
    storage_tmp: Seq<char>,
    optional_tmp: Option<Seq<char>>,
)
    ensures
        tmp_dirs_to_clear_spec(snapshots_tmp, storage_tmp, optional_tmp).len() == (if optional_tmp is Some {
            3int
        } else {
            2int
        }),
        tmp_dirs_to_clear_spec(snapshots_tmp, storage_tmp, optional_tmp)[0] == snapshots_tmp,
        tmp_dirs_to_clear_spec(snapshots_tmp, storage_tmp, optional_tmp)[1] == storage_tmp,
        optional_tmp matches Some(optional) ==> tmp_dirs_to_clear_spec(
            snapshots_tmp,
            storage_tmp,
            optional_tmp,
        )[2] == optional,
{
}

/// When an optional root is configured, work that may go there goes there:
/// the chosen directory is `tmp` under that root, whatever the root is;
/// otherwise it is `tmp` under the fallback root.
pub proof fn law_optional_root_is_preferred(
    config: StorageConfig,
    fallback: TempDirKind,
    fallback_root: Seq<char>,
)
    ensures
        config.temp_path matches Some(root) ==> preferred_temp_dir(config, fallback, fallback_root)
            == (TempDirKind::Optional, join_spec(root@, seq!['t', 'm', 'p'])),
        config.temp_path is None ==> preferred_temp_dir(config, fallback, fallback_root) == (
            fallback,
            join_spec(fallback_root, seq!['t', 'm', 'p']),
        ),
{
    reveal_strlit("tmp");
    assert(TEMP_SUBDIR_NAME@ =~= seq!['t', 'm', 'p']);
}

/// With an optional root configured, the upload directory is `tmp/upload`
/// under that root and lies strictly below it.
pub proof fn law_upload_dir_under_optional_root(config: StorageConfig, root: String)
    requires
        config.temp_path == Some(root),
    ensures
        join_spec(preferred_temp_dir(config, TempDirKind::Snapshots, config.snapshots_path@).1, FILE_UPLOAD_SUBDIR_NAME@)
            == join_spec(join_spec(root@, seq!['t', 'm', 'p']), seq!['u', 'p', 'l', 'o', 'a', 'd']),
        root@.is_prefix_of(
            join_spec(preferred_temp_dir(config, TempDirKind::Snapshots, config.snapshots_path@).1, FILE_UPLOAD_SUBDIR_NAME@),
        ),
{
    reveal_strlit("tmp");
    reveal_strlit("upload");
    assert(TEMP_SUBDIR_NAME@ =~= seq!['t', 'm', 'p']);
    assert(FILE_UPLOAD_SUBDIR_NAME@ =~= seq!['u', 'p', 'l', 'o', 'a', 'd']);
    let tmp = join_spec(root@, seq!['t', 'm', 'p']);
    law_join_extends_base(root@, seq!['t', 'm', 'p']);
    law_join_extends_base(tmp, seq!['u', 'p', 'l', 'o', 'a', 'd']);
    let up = join_spec(tmp, seq!['u', 'p', 'l', 'o', 'a', 'd']);
    assert(root@ =~= up.subrange(0, root@.len() as int)) by {
        assert forall|k: int| 0 <= k < root@.len() implies up[k] == root@[k] by {
            assert(up[k] == tmp[k]);
            assert(tmp[k] == root@[k]);
        }
    }
}

/// Joining on Unix: an absolute component replaces the base; an empty base
/// gives the component; a base ending in a separator is followed directly
/// by the component; any other base is followed by one separator and then
/// the component, whatever the base starts with.
pub proof fn law_join_separator(base: Seq<char>, component: Seq<char>)
    ensures
        component.len() > 0 && component[0] == '/' ==> join_spec(base, component) == component,
        (component.len() == 0 || component[0] != '/') && base.len() == 0 ==> join_spec(
            base,
            component,
        ) == component,
        (component.len() == 0 || component[0] != '/') && base.len() > 0 && base.last() == '/'
            ==> join_spec(base, component) == base + component,
        (component.len() == 0 || component[0] != '/') && base.len() > 0 && base.last() != '/'
            ==> join_spec(base, component) == base + seq!['/'] + component && join_spec(
            base,
            component,
        )[base.len() as int] == '/',
{
    if (component.len() == 0 || component[0] != '/') && base.len() == 0 {
        assert(base + component =~= component);
    }
}

} // verus!
