//! Tables keyed by peer identifier, as sequences of lines in the order in
//! which the identifiers were first registered.

use vstd::prelude::*;

verus! {

/// Whether no two lines of a table are registered under the same identifier.
pub open spec fn distinct_keys<V>(table: Seq<(Seq<char>, V)>) -> bool {
    forall|i: int, j: int|
        0 <= i < table.len() && 0 <= j < table.len() && i != j ==> (#[trigger] table[i]).0 != (
        #[trigger] table[j]).0
}

/// Whether a table has a line under `key`.
pub open spec fn has_key<V>(table: Seq<(Seq<char>, V)>, key: Seq<char>) -> bool {
    exists|i: int| 0 <= i < table.len() && (#[trigger] table[i]).0 == key
}

/// The place of the line registered under `key`, in a table that has one.
pub open spec fn place_of<V>(table: Seq<(Seq<char>, V)>, key: Seq<char>) -> int
    recommends
        has_key(table, key),
{
    choose|i: int| 0 <= i < table.len() && (#[trigger] table[i]).0 == key
}

/// A table with `value` registered under `key`: in the place of the line
/// that was registered under it, or at the end.
pub open spec fn with_line<V>(table: Seq<(Seq<char>, V)>, key: Seq<char>, value: V) -> Seq<
    (Seq<char>, V),
> {
    if has_key(table, key) {
        table.update(place_of(table, key), (key, value))
    } else {
        table.push((key, value))
    }
}

/// A table without the lines registered under `key`.
pub open spec fn without_key<V>(table: Seq<(Seq<char>, V)>, key: Seq<char>) -> Seq<(Seq<char>, V)> {
    table.filter(|line: (Seq<char>, V)| line.0 != key)
}

/// Registering a line keeps the keys distinct and puts the value under its key.
pub proof fn lemma_with_line<V>(table: Seq<(Seq<char>, V)>, key: Seq<char>, value: V)
    requires
        distinct_keys(table),
    ensures
        distinct_keys(with_line(table, key, value)),
        !has_key(table, key) ==> with_line(table, key, value) == table.push((key, value)),
        forall|i: int|
            0 <= i < table.len() && (#[trigger] table[i]).0 == key ==> with_line(
                table,
                key,
                value,
            ) == table.update(i, (key, value)),
{
    let after = with_line(table, key, value);
    if has_key(table, key) {
        let place = place_of(table, key);
        assert forall|i: int| 0 <= i < table.len() && (#[trigger] table[i]).0 == key implies i
            == place by {
            if i != place {
                assert(table[i].0 != table[place].0);
            }
        }
        assert forall|i: int, j: int|
            0 <= i < after.len() && 0 <= j < after.len() && i != j implies (#[trigger] after[i]).0
            != (#[trigger] after[j]).0 by {
            assert(table[i].0 != table[j].0);
        }
    } else {
        assert forall|i: int, j: int|
            0 <= i < after.len() && 0 <= j < after.len() && i != j implies (#[trigger] after[i]).0
            != (#[trigger] after[j]).0 by {
            if i < table.len() && j < table.len() {
                assert(table[i].0 != table[j].0);
            } else if i < table.len() {
                assert(after[i] == table[i]);
            } else {
                assert(after[j] == table[j]);
            }
        }
    }
}

/// Taking a key off a table of distinct keys takes at most one line off.
pub proof fn lemma_without_key<V>(table: Seq<(Seq<char>, V)>, key: Seq<char>)
    requires
        distinct_keys(table),
    ensures
        distinct_keys(without_key(table, key)),
        !has_key(without_key(table, key), key),
        !has_key(table, key) ==> without_key(table, key) == table,
        forall|i: int|
            0 <= i < table.len() && (#[trigger] table[i]).0 == key ==> without_key(table, key)
                == table.remove(i),
    decreases table.len(),
{
    reveal(Seq::filter);
    let keep = |line: (Seq<char>, V)| line.0 != key;
    let after = without_key(table, key);
    if table.len() > 0 {
        let earlier = table.drop_last();
        let last = table.len() - 1;
        assert(distinct_keys(earlier)) by {
            assert forall|i: int, j: int|
                0 <= i < earlier.len() && 0 <= j < earlier.len() && i != j implies (
            #[trigger] earlier[i]).0 != (#[trigger] earlier[j]).0 by {
                assert(earlier[i] == table[i]);
                assert(earlier[j] == table[j]);
            }
        }
        lemma_without_key(earlier, key);
        let inner = without_key(earlier, key);
        if table.last().0 == key {
            assert(after == inner);
            assert(!has_key(earlier, key)) by {
                if has_key(earlier, key) {
                    let i = choose|i: int|
                        0 <= i < earlier.len() && (#[trigger] earlier[i]).0 == key;
                    assert(table[i] == earlier[i]);
                    assert(table[i].0 != table[last].0);
                }
            }
            assert(after =~= table.remove(last));
            assert forall|i: int|
                0 <= i < table.len() && (#[trigger] table[i]).0 == key implies after
                == table.remove(i) by {
                if i != last {
                    assert(table[i].0 != table[last].0);
                }
            }
        } else {
            assert(after == inner.push(table.last()));
            if has_key(earlier, key) {
                let i = choose|i: int| 0 <= i < earlier.len() && (#[trigger] earlier[i]).0 == key;
                assert(table[i] == earlier[i]);
                assert(inner == earlier.remove(i));
                assert(after =~= table.remove(i));
                assert forall|k: int|
                    0 <= k < table.len() && (#[trigger] table[k]).0 == key implies after
                    == table.remove(k) by {
                    if k != i {
                        assert(table[k].0 != table[i].0);
                    }
                }
            } else {
                assert(inner == earlier);
                assert(after =~= table);
                assert(!has_key(table, key)) by {
                    if has_key(table, key) {
                        let i = choose|i: int|
                            0 <= i < table.len() && (#[trigger] table[i]).0 == key;
                        assert(earlier[i] == table[i]);
                    }
                }
            }
            assert(!has_key(after, key)) by {
                if has_key(after, key) {
                    let i = choose|i: int| 0 <= i < after.len() && (#[trigger] after[i]).0 == key;
                    if i < inner.len() {
                        assert(after[i] == inner[i]);
                        assert(has_key(inner, key));
                    }
                }
            }
            assert(distinct_keys(after)) by {
                assert forall|i: int, j: int|
                    0 <= i < after.len() && 0 <= j < after.len() && i != j implies (
                #[trigger] after[i]).0 != (#[trigger] after[j]).0 by {
                    if has_key(earlier, key) {
                        let k = choose|k: int|
                            0 <= k < earlier.len() && (#[trigger] earlier[k]).0 == key;
                        assert(table[k] == earlier[k]);
                        assert(after =~= table.remove(k));
                        let ii = if i < k { i } else { i + 1 };
                        let jj = if j < k { j } else { j + 1 };
                        assert(after[i] == table[ii]);
                        assert(after[j] == table[jj]);
                        assert(table[ii].0 != table[jj].0);
                    } else {
                        assert(after =~= table);
                        assert(table[i].0 != table[j].0);
                    }
                }
            }
        }
    } else {
        assert(!has_key(table, key));
        assert(after =~= table);
    }
}

} // verus!
