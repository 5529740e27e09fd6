//! Discovery of motions from a directory listing: the template pair names
//! the extension, and every file whose name fits the motion grammar for that
//! extension is paired with its reverse by stem and sorted by name. The
//! listing itself (walking the file system) is the caller's business; this
//! module works on the paths alone.

use vstd::prelude::*;
use crate::error::CustomError;
use crate::pattern::is_motion_file_name;
use crate::pattern::is_template_add_name;
use crate::pattern::is_template_sub_name;
use crate::pattern::motion_add_is_match;
use crate::pattern::motion_stem;
use crate::pattern::motion_sub_is_match;
use crate::pattern::template_add_is_match;
use crate::pattern::template_sub_is_match;
use crate::text::ascii_only;
use crate::text::file_name;
use crate::text::file_name_of;
use crate::text::lemma_lex_total;
use crate::text::lemma_lex_trans;
use crate::text::lex_leq;
use crate::text::str_eq;
use crate::text::str_le;
use crate::text::views_of;

verus! {

/// A discovered motion: its name (the stem shared by both files), and the
/// paths of the add and sub files it was paired from.
#[derive(Debug, PartialEq, Eq)]
pub struct Motion {
    pub name: String,
    pub add_path: String,
    pub sub_path: String,
}

/// The discovered template pair and the extension its names carry.
#[derive(Debug, PartialEq, Eq)]
pub struct Template {
    pub extension: String,
    pub add_path: String,
    pub sub_path: String,
}

/// True when `path` names a file directly inside `dir`: the directory, a
/// slash, and a file name free of further slashes.
pub open spec fn is_direct_child(path: Seq<char>, dir: Seq<char>) -> bool {
    &&& path.len() > dir.len() + 1
    &&& path.take(dir.len() as int) == dir
    &&& path[dir.len() as int] == '/'
    &&& forall|i: int| dir.len() + 1 <= i < path.len() ==> path[i] != '/'
}

/// True when `path` is a direct child of `dir` named like the add template.
pub open spec fn is_add_template_here(path: Seq<char>, dir: Seq<char>) -> bool {
    is_direct_child(path, dir) && is_template_add_name(file_name_of(path))
}

/// True when `path` is a direct child of `dir` named like the sub template.
pub open spec fn is_sub_template_here(path: Seq<char>, dir: Seq<char>) -> bool {
    is_direct_child(path, dir) && is_template_sub_name(file_name_of(path))
}

/// True when index `i` holds the first add template among the paths.
pub open spec fn first_add_template(pv: Seq<Seq<char>>, dir: Seq<char>, i: int) -> bool {
    &&& 0 <= i < pv.len()
    &&& is_add_template_here(pv[i], dir)
    &&& forall|j: int| 0 <= j < i ==> !is_add_template_here(#[trigger] pv[j], dir)
}

/// True when index `i` holds the first sub template among the paths.
pub open spec fn first_sub_template(pv: Seq<Seq<char>>, dir: Seq<char>, i: int) -> bool {
    &&& 0 <= i < pv.len()
    &&& is_sub_template_here(pv[i], dir)
    &&& forall|j: int| 0 <= j < i ==> !is_sub_template_here(#[trigger] pv[j], dir)
}

/// The ways a listing can fail to yield a template pair: no add template,
/// no sub template, or a first pair whose extensions disagree.
pub open spec fn no_template_pair(pv: Seq<Seq<char>>, dir: Seq<char>) -> bool {
    ||| forall|j: int| 0 <= j < pv.len() ==> !is_add_template_here(#[trigger] pv[j], dir)
    ||| forall|j: int| 0 <= j < pv.len() ==> !is_sub_template_here(#[trigger] pv[j], dir)
    ||| exists|ia: int, ib: int|
        #![trigger first_add_template(pv, dir, ia), first_sub_template(pv, dir, ib)]
        {
            &&& first_add_template(pv, dir, ia)
            &&& first_sub_template(pv, dir, ib)
            &&& file_name_of(pv[ia]).skip(12) != file_name_of(pv[ib]).skip(12)
        }
}

/// There is only one first template pair.
proof fn lemma_firsts_unique(
    pv: Seq<Seq<char>>,
    dir: Seq<char>,
    ia1: int,
    ib1: int,
    ia2: int,
    ib2: int,
)
    requires
        first_add_template(pv, dir, ia1),
        first_sub_template(pv, dir, ib1),
        first_add_template(pv, dir, ia2),
        first_sub_template(pv, dir, ib2),
    ensures
        ia1 == ia2,
        ib1 == ib2,
{
    if ia1 < ia2 {
        assert(is_add_template_here(pv[ia1], dir));
    }
    if ia2 < ia1 {
        assert(is_add_template_here(pv[ia2], dir));
    }
    if ib1 < ib2 {
        assert(is_sub_template_here(pv[ib1], dir));
    }
    if ib2 < ib1 {
        assert(is_sub_template_here(pv[ib2], dir));
    }
}

/// True when `path`'s file name fits the motion grammar for the add
/// operation and this extension.
pub open spec fn is_motion_add_path(path: Seq<char>, ext: Seq<char>) -> bool {
    is_motion_file_name(file_name_of(path), "add"@, ext)
}

/// True when `path`'s file name fits the motion grammar for the sub
/// operation and this extension.
pub open spec fn is_motion_sub_path(path: Seq<char>, ext: Seq<char>) -> bool {
    is_motion_file_name(file_name_of(path), "sub"@, ext)
}

/// The stem of a motion path's file name.
pub open spec fn stem_of(path: Seq<char>, op: Seq<char>, ext: Seq<char>) -> Seq<char> {
    motion_stem(file_name_of(path), op, ext)
}

/// True when no path is a sub motion file with the given stem.
pub open spec fn no_sub_for(pv: Seq<Seq<char>>, ext: Seq<char>, stem: Seq<char>) -> bool {
    forall|j: int|
        0 <= j < pv.len() ==> !(is_motion_sub_path(#[trigger] pv[j], ext) && stem_of(
            pv[j],
            "sub"@,
            ext,
        ) == stem)
}

/// True when `sub` is the first sub motion path whose stem is `stem`.
pub open spec fn first_sub_for(
    pv: Seq<Seq<char>>,
    ext: Seq<char>,
    stem: Seq<char>,
    sub: Seq<char>,
) -> bool {
    exists|j: int|
        {
            &&& 0 <= j < pv.len()
            &&& #[trigger] pv[j] == sub
            &&& is_motion_sub_path(pv[j], ext)
            &&& stem_of(pv[j], "sub"@, ext) == stem
            &&& forall|q: int|
                0 <= q < j ==> !(is_motion_sub_path(#[trigger] pv[q], ext) && stem_of(
                    pv[q],
                    "sub"@,
                    ext,
                ) == stem)
        }
}

/// True when the motion is a correct pairing drawn from the paths: its add
/// file fits the grammar, its name is the add file's stem, and its sub file
/// is the first sub file sharing that stem.
pub open spec fn valid_motion_pair(m: Motion, pv: Seq<Seq<char>>, ext: Seq<char>) -> bool {
    &&& exists|i: int| 0 <= i < pv.len() && #[trigger] pv[i] == m.add_path@
    &&& is_motion_add_path(m.add_path@, ext)
    &&& m.name@ == stem_of(m.add_path@, "add"@, ext)
    &&& first_sub_for(pv, ext, m.name@, m.sub_path@)
}

/// True when some motion in the sequence was paired from this add path.
pub open spec fn has_add_path(ms: Seq<Motion>, path: Seq<char>) -> bool {
    exists|k: int| 0 <= k < ms.len() && #[trigger] ms[k].add_path@ == path
}

/// True when the motions are in ascending order of name.
pub open spec fn sorted_by_name(ms: Seq<Motion>) -> bool {
    forall|k1: int, k2: int|
        0 <= k1 < k2 < ms.len() ==> #[trigger] lex_leq(ms[k1].name@, ms[k2].name@)
}

/// Decides whether `path` names a file directly inside `dir`.
#[verifier::loop_isolation(false)]
fn direct_child(path: &str, dir: &str) -> (r: bool)
    ensures
        r == is_direct_child(path@, dir@),
{
    let plen = path.unicode_len();
    let dlen = dir.unicode_len();
    if !(plen > dlen && plen - dlen >= 2) {
        return false;
    }
    let mut i: usize = 0;
    while i < dlen
        invariant
            i <= dlen,
            dlen == dir@.len() < path@.len(),
            forall|j: int| 0 <= j < i ==> path@[j] == dir@[j],
        decreases dlen - i,
    {
        if path.get_char(i) != dir.get_char(i) {
            assert(path@.take(dlen as int)[i as int] != dir@[i as int]);
            return false;
        }
        i += 1;
    }
    assert(path@.take(dlen as int) =~= dir@);
    if path.get_char(dlen) != '/' {
        return false;
    }
    let mut j: usize = dlen + 1;
    while j < plen
        invariant
            dlen + 1 <= j <= plen,
            plen == path@.len(),
            forall|q: int| dlen + 1 <= q < j ==> path@[q] != '/',
        decreases plen - j,
    {
        if path.get_char(j) == '/' {
            assert(!is_direct_child(path@, dir@));
            return false;
        }
        j += 1;
    }
    true
}

/// Finds the first direct child of `dir` named like the add template
/// (`want_add`), or like the sub template.
#[verifier::loop_isolation(false)]
fn first_template(paths: &Vec<String>, dir: &str, want_add: bool) -> (r: Option<usize>)
    ensures
        ({
            let pv = views_of(paths@);
            &&& r matches Some(i) ==> (if want_add {
                first_add_template(pv, dir@, i as int)
            } else {
                first_sub_template(pv, dir@, i as int)
            })
            &&& r is None ==> (forall|j: int|
                0 <= j < pv.len() ==> (if want_add {
                    !is_add_template_here(#[trigger] pv[j], dir@)
                } else {
                    !is_sub_template_here(#[trigger] pv[j], dir@)
                }))
        }),
{
    let ghost pv = views_of(paths@);
    let mut i: usize = 0;
    while i < paths.len()
        invariant
            i <= paths@.len(),
            pv == views_of(paths@),
            forall|j: int|
                0 <= j < i ==> (if want_add {
                    !is_add_template_here(#[trigger] pv[j], dir@)
                } else {
                    !is_sub_template_here(#[trigger] pv[j], dir@)
                }),
        decreases paths@.len() - i,
    {
        let name = file_name(paths[i].as_str());
        let hit = if want_add {
            direct_child(paths[i].as_str(), dir) && template_add_is_match(name)
        } else {
            direct_child(paths[i].as_str(), dir) && template_sub_is_match(name)
        };
        if hit {
            return Some(i);
        }
        i += 1;
    }
    None
}

/// Finds the template pair among the paths that lie directly inside `dir`:
/// the first file named like the add template and the first named like the
/// sub template, whose extensions must agree. Errors when either file is
/// missing or the two extensions differ.
pub fn find_template(dir: &str, paths: &Vec<String>) -> (r: Result<Template, CustomError>)
    ensures
        ({
            let pv = views_of(paths@);
            &&& r matches Ok(t) ==> exists|ia: int, ib: int|
                {
                    &&& first_add_template(pv, dir@, ia)
                    &&& first_sub_template(pv, dir@, ib)
                    &&& t.add_path@ == pv[ia]
                    &&& t.sub_path@ == pv[ib]
                    &&& t.extension@ == file_name_of(pv[ia]).skip(12)
                    &&& file_name_of(pv[ia]).skip(12) == file_name_of(pv[ib]).skip(12)
                }
            &&& r matches Ok(t) ==> t.extension@.len() <= t.add_path@.len()
            &&& r is Err <==> no_template_pair(pv, dir@)
        }),
{
    let ghost pv = views_of(paths@);
    let add_at = match first_template(paths, dir, true) {
        Some(i) => i,
        None => {
            return Err(CustomError::new("add template file was not found"));
        },
    };
    let sub_at = match first_template(paths, dir, false) {
        Some(i) => i,
        None => {
            return Err(CustomError::new("sub template file was not found"));
        },
    };
    let add_name = file_name(paths[add_at].as_str());
    let sub_name = file_name(paths[sub_at].as_str());
    let add_len = add_name.unicode_len();
    let sub_len = sub_name.unicode_len();
    let add_ext = add_name.substring_char(12, add_len);
    let sub_ext = sub_name.substring_char(12, sub_len);
    if !str_eq(add_ext, sub_ext) {
        return Err(CustomError::new("template extensions for add and sub do not match"));
    }
    proof {
        assert(first_add_template(pv, dir@, add_at as int));
        assert(first_sub_template(pv, dir@, sub_at as int));
        assert(pv[add_at as int] == paths@[add_at as int]@);
        assert(pv[sub_at as int] == paths@[sub_at as int]@);
        assert(add_ext@ =~= file_name_of(pv[add_at as int]).skip(12));
        assert(sub_ext@ =~= file_name_of(pv[sub_at as int]).skip(12));
        crate::text::lemma_file_name_len(pv[add_at as int]);
        // The firsts are unique, so no differently paired firsts can
        // disagree on the extension.
        assert forall|ia: int, ib: int|
            first_add_template(pv, dir@, ia) && first_sub_template(pv, dir@, ib) implies ia
            == add_at as int && ib == sub_at as int by {
            if ia < add_at as int {
                assert(is_add_template_here(pv[ia], dir@));
            }
            if ib < sub_at as int {
                assert(is_sub_template_here(pv[ib], dir@));
            }
        }
    }
    Ok(
        Template {
            extension: add_ext.to_owned(),
            add_path: paths[add_at].clone(),
            sub_path: paths[sub_at].clone(),
        },
    )
}

/// Inserts a motion into a name sorted vector, after any motions of equal
/// name, keeping the order.
#[verifier::loop_isolation(false)]
fn insert_sorted(motions: &mut Vec<Motion>, m: Motion)
    requires
        sorted_by_name(old(motions)@),
    ensures
        sorted_by_name(final(motions)@),
        final(motions)@.len() == old(motions)@.len() + 1,
        forall|k: int|
            0 <= k < final(motions)@.len() ==> (#[trigger] final(motions)@[k] == m || old(
                motions,
            )@.contains(final(motions)@[k])),
        forall|k: int|
            0 <= k < old(motions)@.len() ==> final(motions)@.contains(#[trigger] old(motions)@[k]),
        final(motions)@.contains(m),
{
    let mut pos: usize = 0;
    while pos < motions.len() && str_le(motions[pos].name.as_str(), m.name.as_str())
        invariant
            pos <= motions@.len(),
            forall|q: int| 0 <= q < pos ==> lex_leq(#[trigger] motions@[q].name@, m.name@),
        decreases motions@.len() - pos,
    {
        pos += 1;
    }
    proof {
        if (pos as int) < motions@.len() {
            lemma_lex_total(motions@[pos as int].name@, m.name@);
        }
    }
    let ghost before = motions@;
    let ghost p = pos as int;
    motions.insert(pos, m);
    proof {
        assert(motions@ == before.insert(p, m));
        assert forall|k: int| 0 <= k < motions@.len() implies (#[trigger] motions@[k] == m
            || before.contains(motions@[k])) by {
            if k < p {
                assert(motions@[k] == before[k]);
            } else if k > p {
                assert(motions@[k] == before[k - 1]);
            }
        }
        assert forall|k: int| 0 <= k < before.len() implies motions@.contains(
            #[trigger] before[k],
        ) by {
            if k < p {
                assert(motions@[k] == before[k]);
            } else {
                assert(motions@[k + 1] == before[k]);
            }
        }
        assert(motions@[p] == m);
        assert forall|k1: int, k2: int| 0 <= k1 < k2 < motions@.len() implies #[trigger] lex_leq(
            motions@[k1].name@,
            motions@[k2].name@,
        ) by {
            if k2 < p {
                assert(motions@[k1] == before[k1] && motions@[k2] == before[k2]);
            } else if k1 > p {
                assert(motions@[k1] == before[k1 - 1] && motions@[k2] == before[k2 - 1]);
            } else if k1 < p && k2 == p {
                assert(motions@[k1] == before[k1]);
            } else if k1 == p {
                assert(motions@[k2] == before[k2 - 1]);
                if k2 - 1 > p {
                    assert(lex_leq(before[p].name@, before[k2 - 1].name@));
                    lemma_lex_trans(m.name@, before[p].name@, before[k2 - 1].name@);
                }
            } else {
                // k1 < p < k2: both ends are old elements around the insert.
                assert(motions@[k1] == before[k1] && motions@[k2] == before[k2 - 1]);
                assert(k1 < k2 - 1);
            }
        }
    }
}

/// Pairs every add motion file among the paths with the first sub motion
/// file sharing its stem, and returns the motions sorted by name. Errors
/// when some add file has no sub counterpart. The exact clauses below hold
/// for listings of ASCII paths; the digit class of the underlying pattern
/// is wider than ASCII, so other listings are matched by the regex crate's
/// reading of `\d`.
#[verifier::loop_isolation(false)]
pub fn find_motions(template: &Template, paths: &Vec<String>) -> (r: Result<
    Vec<Motion>,
    CustomError,
>)
    requires
        template.extension@.len() <= 4096,
    ensures
        ({
            let pv = views_of(paths@);
            let ext = template.extension@;
            let all_ascii = forall|i: int| 0 <= i < pv.len() ==> ascii_only(#[trigger] pv[i]);
            &&& all_ascii ==> (r is Err <==> exists|i: int|
                {
                    &&& 0 <= i < pv.len()
                    &&& is_motion_add_path(#[trigger] pv[i], ext)
                    &&& no_sub_for(pv, ext, stem_of(pv[i], "add"@, ext))
                })
            &&& all_ascii ==> (r matches Ok(ms) ==> {
                &&& sorted_by_name(ms@)
                &&& forall|k: int|
                    0 <= k < ms@.len() ==> valid_motion_pair(#[trigger] ms@[k], pv, ext)
                &&& forall|i: int|
                    0 <= i < pv.len() && is_motion_add_path(#[trigger] pv[i], ext)
                        ==> has_add_path(ms@, pv[i])
            })
        }),
{
    let ghost pv = views_of(paths@);
    let ghost ext = template.extension@;
    let ghost all_ascii = forall|i: int| 0 <= i < pv.len() ==> ascii_only(#[trigger] pv[i]);
    proof {
        reveal_strlit("add");
        reveal_strlit("sub");
    }
    let ext_len = template.extension.unicode_len();
    let mut motions: Vec<Motion> = Vec::new();
    let mut i: usize = 0;
    while i < paths.len()
        invariant
            i <= paths@.len(),
            pv == views_of(paths@),
            ext == template.extension@,
            ext_len == ext.len() <= 4096,
            all_ascii == (forall|q: int| 0 <= q < pv.len() ==> ascii_only(#[trigger] pv[q])),
            sorted_by_name(motions@),
            all_ascii ==> forall|k: int|
                0 <= k < motions@.len() ==> valid_motion_pair(#[trigger] motions@[k], pv, ext),
            all_ascii ==> forall|j: int|
                0 <= j < i && is_motion_add_path(#[trigger] pv[j], ext) ==> has_add_path(
                    motions@,
                    pv[j],
                ),
        decreases paths@.len() - i,
    {
        let name_i = file_name(paths[i].as_str());
        let name_len = name_i.unicode_len();
        proof {
            assert(pv[i as int] == paths@[i as int]@);
            if all_ascii {
                crate::text::lemma_ascii_file_name(pv[i as int]);
            }
        }
        if motion_add_is_match(name_i, template.extension.as_str()) && name_len >= 8 + 4
            + ext_len {
            let stem_i = name_i.substring_char(0, name_len - (4 + ext_len));
            proof {
                if all_ascii {
                    assert(is_motion_add_path(pv[i as int], ext));
                    assert(stem_i@ == stem_of(pv[i as int], "add"@, ext)) by {
                        assert("add"@.len() == 3) by {
                            reveal_strlit("add");
                        }
                    }
                }
            }
            // Get the sub path with a name that matches our add path's stem.
            let mut sub_found: Option<String> = None;
            let mut j: usize = 0;
            while j < paths.len() && sub_found.is_none()
                invariant
                    j <= paths@.len(),
                    pv == views_of(paths@),
                    ext == template.extension@,
                    ext_len == ext.len() <= 4096,
                    all_ascii == (forall|q: int|
                        0 <= q < pv.len() ==> ascii_only(#[trigger] pv[q])),
                    all_ascii ==> (sub_found is None ==> forall|q: int|
                        0 <= q < j ==> !(is_motion_sub_path(#[trigger] pv[q], ext) && stem_of(
                            pv[q],
                            "sub"@,
                            ext,
                        ) == stem_i@)),
                    all_ascii ==> (sub_found matches Some(s) ==> first_sub_for(
                        pv,
                        ext,
                        stem_i@,
                        s@,
                    )),
                decreases paths@.len() - j,
            {
                let name_j = file_name(paths[j].as_str());
                let nj_len = name_j.unicode_len();
                proof {
                    assert(pv[j as int] == paths@[j as int]@);
                    if all_ascii {
                        crate::text::lemma_ascii_file_name(pv[j as int]);
                    }
                }
                if motion_sub_is_match(name_j, template.extension.as_str()) && nj_len >= 8 + 4
                    + ext_len {
                    let stem_j = name_j.substring_char(0, nj_len - (4 + ext_len));
                    proof {
                        if all_ascii {
                            assert(stem_j@ == stem_of(pv[j as int], "sub"@, ext)) by {
                                assert("sub"@.len() == 3) by {
                                    reveal_strlit("sub");
                                }
                            }
                        }
                    }
                    if str_eq(stem_i, stem_j) {
                        sub_found = Some(paths[j].clone());
                    }
                }
                j += 1;
            }
            match sub_found {
                None => {
                    proof {
                        if all_ascii {
                            assert(no_sub_for(pv, ext, stem_of(pv[i as int], "add"@, ext)));
                        }
                    }
                    // An add file with no reverse: the directory is
                    // malformed and no pairing can be trusted.
                    return Err(CustomError::new("sub file not found for an add file"));
                },
                Some(sub_path) => {
                    let m = Motion {
                        name: stem_i.to_owned(),
                        add_path: paths[i].clone(),
                        sub_path,
                    };
                    let ghost gm = m;
                    let ghost before_ms = motions@;
                    proof {
                        if all_ascii {
                            assert(gm.add_path@ == pv[i as int]);
                            assert(valid_motion_pair(gm, pv, ext));
                        }
                    }
                    insert_sorted(&mut motions, m);
                    proof {
                        if all_ascii {
                            assert forall|k: int|
                                0 <= k < motions@.len() implies valid_motion_pair(
                                #[trigger] motions@[k],
                                pv,
                                ext,
                            ) by {
                                if motions@[k] != gm {
                                    assert(before_ms.contains(motions@[k]));
                                    let q = choose|q: int|
                                        0 <= q < before_ms.len() && before_ms[q] == motions@[k];
                                    assert(valid_motion_pair(before_ms[q], pv, ext));
                                }
                            }
                            assert forall|j2: int|
                                0 <= j2 < i + 1 && is_motion_add_path(
                                #[trigger] pv[j2],
                                ext,
                            ) implies has_add_path(motions@, pv[j2]) by {
                                if j2 == i as int {
                                    assert(motions@.contains(gm));
                                    let idx = choose|idx: int|
                                        0 <= idx < motions@.len() && motions@[idx] == gm;
                                    assert(motions@[idx].add_path@ == pv[j2]);
                                } else {
                                    assert(has_add_path(before_ms, pv[j2]));
                                    let k = choose|k: int|
                                        0 <= k < before_ms.len() && #[trigger] before_ms[k].add_path@
                                            == pv[j2];
                                    assert(motions@.contains(before_ms[k]));
                                    let k2 = choose|k2: int|
                                        0 <= k2 < motions@.len() && motions@[k2] == before_ms[k];
                                    assert(motions@[k2].add_path@ == pv[j2]);
                                }
                            }
                        }
                    }
                },
            }
        }
        i += 1;
    }
    proof {
        if all_ascii {
            assert forall|q: int|
                0 <= q < pv.len() && is_motion_add_path(#[trigger] pv[q], ext) implies !no_sub_for(
                pv,
                ext,
                stem_of(pv[q], "add"@, ext),
            ) by {
                assert(has_add_path(motions@, pv[q]));
                let k = choose|k: int| 0 <= k < motions@.len() && #[trigger] motions@[k].add_path@
                    == pv[q];
                assert(valid_motion_pair(motions@[k], pv, ext));
            }
        }
    }
    Ok(motions)
}

/// Discovers the motions of a directory from its recursive listing: finds
/// the template pair directly inside `dir`, then pairs and orders every
/// motion file in the listing by the template's extension.
pub fn find(dir: &str, paths: &Vec<String>) -> (r: Result<Vec<Motion>, CustomError>)
    requires
        forall|i: int| 0 <= i < paths@.len() ==> (#[trigger] paths@[i]@).len() <= 4096,
    ensures
        ({
            let pv = views_of(paths@);
            let all_ascii = forall|i: int| 0 <= i < pv.len() ==> ascii_only(#[trigger] pv[i]);
            &&& no_template_pair(pv, dir@) ==> r is Err
            &&& all_ascii ==> (r is Err <==> (no_template_pair(pv, dir@) || exists|ia: int, ib: int|
                #![trigger first_add_template(pv, dir@, ia), first_sub_template(pv, dir@, ib)]
                {
                    &&& first_add_template(pv, dir@, ia)
                    &&& first_sub_template(pv, dir@, ib)
                    &&& file_name_of(pv[ia]).skip(12) == file_name_of(pv[ib]).skip(12)
                    &&& exists|i: int|
                        {
                            &&& 0 <= i < pv.len()
                            &&& is_motion_add_path(#[trigger] pv[i], file_name_of(pv[ia]).skip(12))
                            &&& no_sub_for(
                                pv,
                                file_name_of(pv[ia]).skip(12),
                                stem_of(pv[i], "add"@, file_name_of(pv[ia]).skip(12)),
                            )
                        }
                }))
            &&& all_ascii ==> (r matches Ok(ms) ==> exists|ia: int, ib: int|
                #![trigger first_add_template(pv, dir@, ia), first_sub_template(pv, dir@, ib)]
                {
                    &&& first_add_template(pv, dir@, ia)
                    &&& first_sub_template(pv, dir@, ib)
                    &&& sorted_by_name(ms@)
                    &&& forall|k: int|
                        0 <= k < ms@.len() ==> valid_motion_pair(
                            #[trigger] ms@[k],
                            pv,
                            file_name_of(pv[ia]).skip(12),
                        )
                    &&& forall|i: int|
                        0 <= i < pv.len() && is_motion_add_path(
                            #[trigger] pv[i],
                            file_name_of(pv[ia]).skip(12),
                        ) ==> has_add_path(ms@, pv[i])
                })
        }),
{
    let template = match find_template(dir, paths) {
        Ok(t) => t,
        Err(e) => {
            return Err(e);
        },
    };
    proof {
        assert(template.extension@.len() <= 4096);
    }
    let motions = find_motions(&template, paths);
    proof {
        let pv = views_of(paths@);
        let all_ascii = forall|i: int| 0 <= i < pv.len() ==> ascii_only(#[trigger] pv[i]);
        let (ia, ib) = choose|ia: int, ib: int|
            #![trigger first_add_template(pv, dir@, ia), first_sub_template(pv, dir@, ib)]
            {
                &&& first_add_template(pv, dir@, ia)
                &&& first_sub_template(pv, dir@, ib)
                &&& template.extension@ == file_name_of(pv[ia]).skip(12)
                &&& file_name_of(pv[ia]).skip(12) == file_name_of(pv[ib]).skip(12)
            };
        if all_ascii {
            // Any first template pair is this one, so any unpaired add
            // file under its extension is one under the template's.
            assert forall|ia2: int, ib2: int|
                first_add_template(pv, dir@, ia2) && first_sub_template(
                    pv,
                    dir@,
                    ib2,
                ) implies file_name_of(pv[ia2]).skip(12) == template.extension@ by {
                lemma_firsts_unique(pv, dir@, ia, ib, ia2, ib2);
            }
        }
    }
    motions
}

} // verus!
