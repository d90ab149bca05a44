//! What the information dictionary of a PDF says of a paper.
//!
//! Reading the dictionary is the caller's business; this module takes the
//! texts found in it and makes a title and a set of authors of them.

use crate::author::{Author, names_of};
use crate::keys::{
    find_slot, lemma_insert_adds_key, lemma_insert_keeps_sorted, lemma_slot_decides_membership,
    strictly_sorted,
};
use crate::text::{
    char_is_alphanumeric, char_is_whitespace, chars_of, is_alphanumeric, is_whitespace, opt_str,
    opt_text, string_of_range, trim, trimmed,
};
use vstd::prelude::*;

verus! {

/// The title that a PDF gives a paper: the title it records, without the
/// whitespace around it, unless it records none or an empty one.
pub open spec fn title_of(found: Option<Seq<char>>) -> Option<Seq<char>> {
    match found {
        Some(t) => if t.len() > 0 {
            Some(trimmed(t))
        } else {
            None
        },
        None => None,
    }
}

/// The title for a paper, given the title that its PDF records.
pub fn extract_title(found: Option<&str>) -> (r: Option<String>)
    ensures
        opt_text(r) == title_of(opt_str(found)),
{
    match found {
        Some(t) => if t.unicode_len() > 0 {
            Some(trim(t))
        } else {
            None
        },
        None => None,
    }
}

/// Whether `c` can be part of a name: a letter, a number, whitespace or a full stop.
pub open spec fn is_name_char(c: char) -> bool {
    is_alphanumeric(c) || is_whitespace(c) || c == '.'
}

/// The runs of name characters in `s`, between the characters that are none.
pub open spec fn name_fields(s: Seq<char>) -> Seq<Seq<char>>
    decreases s.len(),
{
    if s.len() == 0 {
        seq![Seq::empty()]
    } else {
        let before = name_fields(s.drop_last());
        if is_name_char(s.last()) {
            before.drop_last().push(before.last().push(s.last()))
        } else {
            before.push(Seq::empty())
        }
    }
}

/// Whether `name` is one of the authors that the text `s` names: a run of
/// name characters, without the whitespace around it, that is not empty.
pub open spec fn names_author(s: Seq<char>, name: Seq<char>) -> bool {
    name.len() > 0 && exists|k: int|
        0 <= k < name_fields(s).len() && trimmed(#[trigger] name_fields(s)[k]) == name
}

/// There is always a field, the last one being the run that is still open.
proof fn lemma_name_fields_nonempty(s: Seq<char>)
    ensures
        name_fields(s).len() > 0,
    decreases s.len(),
{
    if s.len() > 0 {
        lemma_name_fields_nonempty(s.drop_last());
    }
}

/// Files `name` in the sorted run `keys` unless it is empty or there already.
fn keep_name(keys: &mut Vec<String>, name: String)
    requires
        strictly_sorted(old(keys).deep_view()),
    ensures
        strictly_sorted(final(keys).deep_view()),
        final(keys).deep_view().to_set() == if name@.len() > 0 {
            old(keys).deep_view().to_set().insert(name@)
        } else {
            old(keys).deep_view().to_set()
        },
{
    if name.as_str().unicode_len() == 0 {
        return ;
    }
    let (slot, found) = find_slot(keys, name.as_str());
    proof {
        lemma_slot_decides_membership(keys.deep_view(), name@, slot as int, found);
    }
    if !found {
        let ghost before = keys.deep_view();
        proof {
            lemma_insert_keeps_sorted(before, name@, slot as int);
            lemma_insert_adds_key(before, name@, slot as int);
        }
        keys.insert(slot, name);
        assert(keys.deep_view() =~= before.insert(slot as int, name@));
    } else {
        assert(keys.deep_view().to_set().insert(name@) =~= keys.deep_view().to_set());
    }
}

/// The authors that a PDF names, given the text it records for them: each
/// run of letters, numbers, whitespace and full stops is one name. The
/// authors come in ascending order of their names, none twice.
pub fn extract_authors(found: Option<&str>) -> (r: Vec<Author>)
    ensures
        strictly_sorted(names_of(r@)),
        found is None ==> r@.len() == 0,
        found matches Some(s) ==> forall|name: Seq<char>|
            names_of(r@).contains(name) <==> names_author(s@, name),
{
    let mut keys: Vec<String> = Vec::new();
    assert(keys.deep_view() =~= Seq::<Seq<char>>::empty());
    if let Some(s) = found {
        let v = chars_of(s);
        let mut start: usize = 0;
        let mut i: usize = 0;
        let ghost mut done: Seq<Seq<char>> = Seq::empty();
        assert(v@.take(0) == Seq::<char>::empty());
        assert(v@.subrange(0, 0) == Seq::<char>::empty());
        assert(name_fields(v@.take(0)) == done.push(v@.subrange(0, 0)));
        while i < v.len()
            invariant
                start <= i <= v.len(),
                v@ == s@,
                strictly_sorted(keys.deep_view()),
                name_fields(v@.take(i as int)) == done.push(v@.subrange(start as int, i as int)),
                forall|name: Seq<char>|
                    keys.deep_view().contains(name) <==> (name.len() > 0 && exists|k: int|
                        0 <= k < done.len() && trimmed(#[trigger] done[k]) == name),
            decreases v.len() - i,
        {
            let c = v[i];
            let is_name = char_is_alphanumeric(c) || char_is_whitespace(c) || c == '.';
            proof {
                assert(v@.take(i + 1).drop_last() == v@.take(i as int));
                assert(v@.take(i + 1).last() == c);
                let before = name_fields(v@.take(i as int));
                assert(before.last() == v@.subrange(start as int, i as int));
                assert(before.drop_last() == done);
            }
            if is_name {
                proof {
                    assert(v@.subrange(start as int, i as int).push(c) == v@.subrange(
                        start as int,
                        i + 1,
                    ));
                }
            } else {
                let field = string_of_range(&v, start, i);
                let name = trim(field.as_str());
                let ghost old_keys = keys.deep_view();
                let ghost old_done = done;
                keep_name(&mut keys, name);
                proof {
                    done = done.push(field@);
                    assert(v@.subrange(i + 1, i + 1) == Seq::<char>::empty());
                    assert forall|n: Seq<char>|
                        keys.deep_view().contains(n) <==> (n.len() > 0 && exists|k: int|
                            0 <= k < done.len() && trimmed(#[trigger] done[k]) == n) by {
                        assert(keys.deep_view().to_set().contains(n) <==> keys.deep_view().contains(
                            n,
                        ));
                        assert(old_keys.to_set().contains(n) <==> old_keys.contains(n));
                        if n.len() > 0 && exists|k: int|
                            0 <= k < done.len() && trimmed(#[trigger] done[k]) == n {
                            let k = choose|k: int|
                                0 <= k < done.len() && trimmed(#[trigger] done[k]) == n;
                            if k < old_done.len() {
                                assert(old_done[k] == done[k]);
                            }
                        }
                        if old_keys.contains(n) {
                            let k = choose|k: int|
                                0 <= k < old_done.len() && trimmed(#[trigger] old_done[k]) == n;
                            assert(done[k] == old_done[k]);
                        }
                        if n == name@ && n.len() > 0 {
                            assert(trimmed(done[old_done.len() as int]) == n);
                        }
                    }
                }
                start = i + 1;
            }
            i += 1;
        }
        let field = string_of_range(&v, start, v.len());
        let name = trim(field.as_str());
        let ghost old_keys = keys.deep_view();
        keep_name(&mut keys, name);
        proof {
            assert(v@.take(v.len() as int) == v@);
            let all = name_fields(s@);
            assert(all == done.push(field@));
            assert forall|n: Seq<char>| keys.deep_view().contains(n) <==> names_author(s@, n) by {
                assert(keys.deep_view().to_set().contains(n) <==> keys.deep_view().contains(n));
                assert(old_keys.to_set().contains(n) <==> old_keys.contains(n));
                if names_author(s@, n) {
                    let k = choose|k: int| 0 <= k < all.len() && trimmed(#[trigger] all[k]) == n;
                    if k < done.len() {
                        assert(done[k] == all[k]);
                    }
                }
                if old_keys.contains(n) {
                    let k = choose|k: int| 0 <= k < done.len() && trimmed(#[trigger] done[k]) == n;
                    assert(all[k] == done[k]);
                }
                if n == name@ && n.len() > 0 {
                    assert(trimmed(all[done.len() as int]) == n);
                }
            }
        }
    }
    proof {
        assert forall|name: Seq<char>| keys.deep_view().contains(name) implies trimmed(name)
            == name by {
            if let Some(s) = found {
                let k = choose|k: int|
                    0 <= k < name_fields(s@).len() && trimmed(#[trigger] name_fields(s@)[k])
                        == name;
                crate::text::lemma_trim_is_idempotent(name_fields(s@)[k]);
            }
        }
    }
    let mut out: Vec<Author> = Vec::new();
    let mut i: usize = 0;
    while i < keys.len()
        invariant
            i <= keys@.len(),
            out@.len() == i,
            forall|k: int| 0 <= k < i ==> (#[trigger] out@[k])@ == trimmed(keys@[k]@),
        decreases keys@.len() - i,
    {
        out.push(Author::new(keys[i].as_str()));
        i += 1;
    }
    proof {
        assert(names_of(out@).len() == keys.deep_view().len());
        assert forall|k: int| 0 <= k < out@.len() implies names_of(out@)[k] == keys.deep_view()[k] by {
            let name = keys.deep_view()[k];
            assert(keys.deep_view().contains(name));
            assert(trimmed(name) == name);
        }
        assert(names_of(out@) =~= keys.deep_view());
    }
    out
}

} // verus!
