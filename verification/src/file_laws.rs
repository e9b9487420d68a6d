//! What holds of the names of session files and of their order.

use vstd::prelude::*;
use vstd::utf8::{decode_utf8, valid_utf8};

use crate::files::{
    extension, is_listing, is_session_name, json_bytes, jsonl_bytes, last_dot, lemma_path_order,
    listed_before, lower_bytes, name_before, path_before, places_of, session_name, FoundFile,
    SessionFile,
};

verus! {

proof fn lemma_last_dot(before: Seq<u8>, after: Seq<u8>)
    requires
        !after.contains(46),
    ensures
        last_dot(before.push(46) + after) == before.len(),
    decreases after.len(),
{
    let name = before.push(46) + after;
    if after.len() == 0 {
        assert(name =~= before.push(46));
    } else {
        let rest = after.drop_last();
        assert(after[after.len() - 1] != 46);
        assert(!rest.contains(46)) by {
            if rest.contains(46) {
                let i = choose|i: int| 0 <= i < rest.len() && rest[i] == 46;
                assert(after[i] == 46);
            }
        }
        lemma_last_dot(before, rest);
        assert(name.drop_last() =~= before.push(46) + rest);
        assert(name.last() == after.last());
    }
}

proof fn lemma_no_dot(name: Seq<u8>)
    requires
        forall|i: int| 0 < i < name.len() ==> #[trigger] name[i] != 46,
    ensures
        last_dot(name) <= 0,
    decreases name.len(),
{
    if name.len() > 1 {
        assert(name[name.len() - 1] != 46);
        assert forall|i: int| 0 < i < name.drop_last().len() implies #[trigger] name.drop_last()[i]
            != 46 by {
            assert(name[i] != 46);
        }
        lemma_no_dot(name.drop_last());
    } else if name.len() == 1 {
        assert(name.drop_last() =~= Seq::empty());
        reveal_with_fuel(last_dot, 2);
    }
}

/// Bytes that spell `json`, in any case.
pub open spec fn spells_json(bytes: Seq<u8>) -> bool {
    &&& bytes.len() == 4
    &&& bytes[0] == 106 || bytes[0] == 74
    &&& bytes[1] == 115 || bytes[1] == 83
    &&& bytes[2] == 111 || bytes[2] == 79
    &&& bytes[3] == 110 || bytes[3] == 78
}

/// Bytes that spell `jsonl`, in any case.
pub open spec fn spells_jsonl(bytes: Seq<u8>) -> bool {
    &&& bytes.len() == 5
    &&& spells_json(bytes.take(4))
    &&& bytes[4] == 108 || bytes[4] == 76
}

/// A name with something before its last dot is that of a session file exactly if
/// `json` or `jsonl` comes after the dot, in any case. What comes before the dot is
/// the name of the session, or `unknown` where it is no text.
pub proof fn law_names_with_extension(before: Seq<u8>, after: Seq<u8>)
    requires
        before.len() > 0,
        !after.contains(46),
    ensures
        is_session_name(before.push(46) + after) <==> spells_json(after) || spells_jsonl(after),
        valid_utf8(before) ==> session_name(before.push(46) + after) == decode_utf8(before),
        !valid_utf8(before) ==> session_name(before.push(46) + after) == "unknown"@,
{
    let name = before.push(46) + after;
    lemma_last_dot(before, after);
    assert(name.skip(before.len() as int + 1) =~= after);
    assert(name.take(before.len() as int) =~= before);
    let small = lower_bytes(after);
    if spells_json(after) {
        assert(small =~= json_bytes());
    }
    if spells_jsonl(after) {
        assert(after.take(4)[0] == after[0] && after.take(4)[1] == after[1]);
        assert(after.take(4)[2] == after[2] && after.take(4)[3] == after[3]);
        assert(small =~= jsonl_bytes());
    }
    if small == json_bytes() {
        assert(small.len() == 4);
        assert(small[0] == 106 && small[1] == 115 && small[2] == 111 && small[3] == 110);
        assert(spells_json(after));
    }
    if small == jsonl_bytes() {
        assert(small.len() == 5);
        assert(small[0] == 106 && small[1] == 115 && small[2] == 111 && small[3] == 110);
        assert(small[4] == 108);
        assert(after.take(4)[0] == after[0] && after.take(4)[1] == after[1]);
        assert(after.take(4)[2] == after[2] && after.take(4)[3] == after[3]);
        assert(spells_jsonl(after));
    }
}

/// A name without a dot, or with one only at its beginning, is not that of a session
/// file. The whole of it is the name of the session, or `unknown` where it is no
/// text.
pub proof fn law_names_without_extension(name: Seq<u8>)
    requires
        forall|i: int| 0 < i < name.len() ==> #[trigger] name[i] != 46,
    ensures
        !is_session_name(name),
        valid_utf8(name) ==> session_name(name) == decode_utf8(name),
        !valid_utf8(name) ==> session_name(name) == "unknown"@,
{
    lemma_no_dot(name);
    assert(lower_bytes(extension(name)).len() == 0);
}

/// Two names are the same up to place `n`, where the first ends or has the smaller
/// byte.
pub open spec fn name_smaller_at(a: Seq<u8>, b: Seq<u8>, n: int) -> bool {
    &&& 0 <= n <= a.len()
    &&& n < b.len()
    &&& forall|i: int| 0 <= i < n ==> #[trigger] a[i] == b[i]
    &&& n == a.len() || a[n] < b[n]
}

/// Of two names the one comes first that ends, or has the smaller byte, at the first
/// place where they differ.
pub proof fn law_names_in_order(a: Seq<u8>, b: Seq<u8>)
    ensures
        name_before(a, b) <==> exists|n: int| name_smaller_at(a, b, n),
    decreases a.len(),
{
    if b.len() > 0 && a.len() > 0 && a[0] == b[0] {
        let c = a.drop_first();
        let d = b.drop_first();
        law_names_in_order(c, d);
        if exists|n: int| name_smaller_at(c, d, n) {
            let n = choose|n: int| name_smaller_at(c, d, n);
            assert forall|i: int| 0 <= i < n + 1 implies #[trigger] a[i] == b[i] by {
                if i > 0 {
                    assert(c[i - 1] == d[i - 1]);
                }
            }
            assert(name_smaller_at(a, b, n + 1));
        }
        if exists|n: int| name_smaller_at(a, b, n) {
            let n = choose|n: int| name_smaller_at(a, b, n);
            assert(n > 0);
            assert forall|i: int| 0 <= i < n - 1 implies #[trigger] c[i] == d[i] by {
                assert(a[i + 1] == b[i + 1]);
            }
            assert(name_smaller_at(c, d, n - 1));
        }
    } else {
        if b.len() > 0 && (a.len() == 0 || a[0] < b[0]) {
            assert(name_smaller_at(a, b, 0));
        }
        if exists|n: int| name_smaller_at(a, b, n) {
            let n = choose|n: int| name_smaller_at(a, b, n);
            if n > 0 {
                assert(a[0] == b[0]);
            }
        }
    }
}

/// Two paths are the same up to component `n`, where the first ends or has the
/// component that comes first.
pub open spec fn path_smaller_at(a: Seq<Seq<u8>>, b: Seq<Seq<u8>>, n: int) -> bool {
    &&& 0 <= n <= a.len()
    &&& n < b.len()
    &&& forall|i: int| 0 <= i < n ==> #[trigger] a[i] == b[i]
    &&& n == a.len() || exists|m: int| name_smaller_at(a[n], b[n], m)
}

/// Of two paths the one comes first that ends, or has the component that comes
/// first, at the first place where they differ.
pub proof fn law_paths_in_order(a: Seq<Seq<u8>>, b: Seq<Seq<u8>>)
    ensures
        path_before(a, b) <==> exists|n: int| path_smaller_at(a, b, n),
    decreases a.len(),
{
    if b.len() > 0 && a.len() > 0 && a[0] == b[0] {
        let c = a.drop_first();
        let d = b.drop_first();
        law_paths_in_order(c, d);
        if exists|n: int| path_smaller_at(c, d, n) {
            let n = choose|n: int| path_smaller_at(c, d, n);
            assert forall|i: int| 0 <= i < n + 1 implies #[trigger] a[i] == b[i] by {
                if i > 0 {
                    assert(c[i - 1] == d[i - 1]);
                }
            }
            assert(path_smaller_at(a, b, n + 1));
        }
        if exists|n: int| path_smaller_at(a, b, n) {
            let n = choose|n: int| path_smaller_at(a, b, n);
            if n == 0 {
                law_names_in_order(a[0], b[0]);
                lemma_name_not_before_itself(a[0]);
            }
            assert forall|i: int| 0 <= i < n - 1 implies #[trigger] c[i] == d[i] by {
                assert(a[i + 1] == b[i + 1]);
            }
            if n < a.len() {
                let m = choose|m: int| name_smaller_at(a[n], b[n], m);
                assert(c[n - 1] == a[n] && d[n - 1] == b[n]);
                assert(name_smaller_at(c[n - 1], d[n - 1], m));
            }
            assert(path_smaller_at(c, d, n - 1));
        }
    } else {
        if b.len() > 0 && a.len() > 0 {
            law_names_in_order(a[0], b[0]);
        }
        if path_before(a, b) {
            assert(path_smaller_at(a, b, 0));
        }
        if exists|n: int| path_smaller_at(a, b, n) {
            let n = choose|n: int| path_smaller_at(a, b, n);
            if n > 0 {
                assert(a[0] == b[0]);
            }
        }
    }
}

proof fn lemma_name_not_before_itself(a: Seq<u8>)
    ensures
        !name_before(a, a),
    decreases a.len(),
{
    if a.len() > 0 {
        lemma_name_not_before_itself(a.drop_first());
    }
}

/// What is listed are the found files that are files, lie three levels deep at most
/// and have the name of a session file. Each is listed once. They are in the order of
/// their paths, and those with one path in the order in which they were found.
pub proof fn law_listing_of_found(found: Seq<FoundFile>, places: Seq<usize>)
    requires
        is_listing(found, found.len() as int, places),
    ensures
        forall|k: usize|
            #[trigger] places.contains(k) <==> {
                &&& k < found.len()
                &&& found[k as int].is_file
                &&& found[k as int].depth <= 3
                &&& is_session_name(found[k as int].name@)
            },
        forall|i: int, j: int|
            #![trigger places[i], places[j]]
            0 <= i < j < places.len() ==> {
                let first = found[places[i] as int].path();
                let second = found[places[j] as int].path();
                &&& places[i] != places[j]
                &&& first == second && places[i] < places[j] || exists|n: int|
                    path_smaller_at(first, second, n)
            },
{
    assert forall|i: int, j: int|
        #![trigger places[i], places[j]]
        0 <= i < j < places.len() implies {
        let first = found[places[i] as int].path();
        let second = found[places[j] as int].path();
        &&& places[i] != places[j]
        &&& first == second && places[i] < places[j] || exists|n: int|
            path_smaller_at(first, second, n)
    } by {
        let first = found[places[i] as int].path();
        let second = found[places[j] as int].path();
        assert(listed_before(found, places[i] as int, places[j] as int));
        law_paths_in_order(first, second);
        lemma_path_order(first, first);
    }
}

/// The places of session files are theirs, in order.
pub proof fn law_places_of_files(files: Seq<SessionFile>)
    ensures
        places_of(files).len() == files.len(),
        forall|i: int| 0 <= i < files.len() ==> #[trigger] places_of(files)[i] == files[i].place,
{
}

/// The path of a found file is made of its components, in order.
pub proof fn law_path_of_components(file: FoundFile)
    ensures
        file.path().len() == file.components@.len(),
        forall|i: int|
            0 <= i < file.components@.len() ==> #[trigger] file.path()[i] == file.components@[i]@,
{
}

} // verus!
