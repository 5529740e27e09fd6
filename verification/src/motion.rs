//! The earlier shape of discovery: the template pair may sit anywhere in the
//! listing, motions carry no derived name, and they are ordered by the add
//! file's own name rather than by stem.

use vstd::prelude::*;
use crate::error::CustomError;
use crate::pattern::is_motion_file_name;
use crate::pattern::is_template_add_name;
use crate::pattern::is_template_sub_name;
use crate::pattern::motion_add_is_match;
use crate::pattern::motion_stem;
use crate::pattern::motion_sub_is_match;
use crate::pattern::template_add_is_match;
use crate::pattern::template_sub_is_match;
use crate::text::ascii_only;
use crate::text::file_name;
use crate::text::file_name_of;
use crate::text::lemma_ascii_file_name;
use crate::text::lemma_file_name_len;
use crate::text::lemma_lex_total;
use crate::text::lemma_lex_trans;
use crate::text::lex_leq;
use crate::text::str_eq;
use crate::text::str_le;
use crate::text::views_of;

verus! {

/// A paired motion: the paths of its add and sub files.
#[derive(Debug, PartialEq, Eq)]
pub struct Motion {
    pub add_path: String,
    pub sub_path: String,
}

/// The template pair and the extension its names carry.
#[derive(Debug, PartialEq, Eq)]
pub struct Template {
    pub extension: String,
    pub add_path: String,
    pub sub_path: String,
}

/// Everything discovery yields for one directory listing.
#[derive(Debug, PartialEq, Eq)]
pub struct Motions {
    pub template: Template,
    pub motions: Vec<Motion>,
}

/// True when index `i` holds the first path anywhere in the listing whose
/// file name is the add template's.
pub open spec fn first_add_template(pv: Seq<Seq<char>>, i: int) -> bool {
    &&& 0 <= i < pv.len()
    &&& is_template_add_name(file_name_of(pv[i]))
    &&& forall|j: int| 0 <= j < i ==> !is_template_add_name(file_name_of(#[trigger] pv[j]))
}

/// True when index `i` holds the first path whose file name is the sub
/// template's.
pub open spec fn first_sub_template(pv: Seq<Seq<char>>, i: int) -> bool {
    &&& 0 <= i < pv.len()
    &&& is_template_sub_name(file_name_of(pv[i]))
    &&& forall|j: int| 0 <= j < i ==> !is_template_sub_name(file_name_of(#[trigger] pv[j]))
}

/// The ways a listing can fail to yield a template pair: no add template,
/// no sub template, or a first pair whose extensions disagree.
pub open spec fn no_template_pair(pv: Seq<Seq<char>>) -> bool {
    ||| forall|j: int| 0 <= j < pv.len() ==> !is_template_add_name(file_name_of(#[trigger] pv[j]))
    ||| forall|j: int| 0 <= j < pv.len() ==> !is_template_sub_name(file_name_of(#[trigger] pv[j]))
    ||| exists|ia: int, ib: int|
        #![trigger first_add_template(pv, ia), first_sub_template(pv, ib)]
        {
            &&& first_add_template(pv, ia)
            &&& first_sub_template(pv, ib)
            &&& file_name_of(pv[ia]).skip(12) != file_name_of(pv[ib]).skip(12)
        }
}

/// There is only one first template pair.
proof fn lemma_firsts_unique(pv: Seq<Seq<char>>, ia1: int, ib1: int, ia2: int, ib2: int)
    requires
        first_add_template(pv, ia1),
        first_sub_template(pv, ib1),
        first_add_template(pv, ia2),
        first_sub_template(pv, ib2),
    ensures
        ia1 == ia2,
        ib1 == ib2,
{
    if ia1 < ia2 {
        assert(is_template_add_name(file_name_of(pv[ia1])));
    }
    if ia2 < ia1 {
        assert(is_template_add_name(file_name_of(pv[ia2])));
    }
    if ib1 < ib2 {
        assert(is_template_sub_name(file_name_of(pv[ib1])));
    }
    if ib2 < ib1 {
        assert(is_template_sub_name(file_name_of(pv[ib2])));
    }
}

/// True when `path`'s file name fits the motion grammar for the add
/// operation and this extension.
pub open spec fn is_motion_add_path(path: Seq<char>, ext: Seq<char>) -> bool {
    is_motion_file_name(file_name_of(path), "add"@, ext)
}

/// True when `path`'s file name fits the motion grammar for the sub
/// operation and this extension.
pub open spec fn is_motion_sub_path(path: Seq<char>, ext: Seq<char>) -> bool {
    is_motion_file_name(file_name_of(path), "sub"@, ext)
}

/// The stem of a motion path's file name.
pub open spec fn stem_of(path: Seq<char>, op: Seq<char>, ext: Seq<char>) -> Seq<char> {
    motion_stem(file_name_of(path), op, ext)
}

/// True when no path is a sub motion file with the given stem.
pub open spec fn no_sub_for(pv: Seq<Seq<char>>, ext: Seq<char>, stem: Seq<char>) -> bool {
    forall|j: int|
        0 <= j < pv.len() ==> !(is_motion_sub_path(#[trigger] pv[j], ext) && stem_of(
            pv[j],
            "sub"@,
            ext,
        ) == stem)
}

/// True when `sub` is the first sub motion path whose stem is `stem`.
pub open spec fn first_sub_for(
    pv: Seq<Seq<char>>,
    ext: Seq<char>,
    stem: Seq<char>,
    sub: Seq<char>,
) -> bool {
    exists|j: int|
        {
            &&& 0 <= j < pv.len()
            &&& #[trigger] pv[j] == sub
            &&& is_motion_sub_path(pv[j], ext)
            &&& stem_of(pv[j], "sub"@, ext) == stem
            &&& forall|q: int|
                0 <= q < j ==> !(is_motion_sub_path(#[trigger] pv[q], ext) && stem_of(
                    pv[q],
                    "sub"@,
                    ext,
                ) == stem)
        }
}

/// True when the motion is a correct pairing drawn from the paths.
pub open spec fn valid_motion_pair(m: Motion, pv: Seq<Seq<char>>, ext: Seq<char>) -> bool {
    &&& exists|i: int| 0 <= i < pv.len() && #[trigger] pv[i] == m.add_path@
    &&& is_motion_add_path(m.add_path@, ext)
    &&& first_sub_for(pv, ext, stem_of(m.add_path@, "add"@, ext), m.sub_path@)
}

/// True when some motion in the sequence was paired from this add path.
pub open spec fn has_add_path(ms: Seq<Motion>, path: Seq<char>) -> bool {
    exists|k: int| 0 <= k < ms.len() && #[trigger] ms[k].add_path@ == path
}

/// True when the motions are in ascending order of the add file's name.
pub open spec fn sorted_by_file(ms: Seq<Motion>) -> bool {
    forall|k1: int, k2: int|
        0 <= k1 < k2 < ms.len() ==> #[trigger] lex_leq(
            file_name_of(ms[k1].add_path@),
            file_name_of(ms[k2].add_path@),
        )
}

/// Finds the first path anywhere in the listing named like the add
/// template (`want_add`), or like the sub template.
#[verifier::loop_isolation(false)]
fn first_template(paths: &Vec<String>, want_add: bool) -> (r: Option<usize>)
    ensures
        ({
            let pv = views_of(paths@);
            &&& r matches Some(i) ==> (if want_add {
                first_add_template(pv, i as int)
            } else {
                first_sub_template(pv, i as int)
            })
            &&& r is None ==> (forall|j: int|
                0 <= j < pv.len() ==> (if want_add {
                    !is_template_add_name(file_name_of(#[trigger] pv[j]))
                } else {
                    !is_template_sub_name(file_name_of(#[trigger] pv[j]))
                }))
        }),
{
    let ghost pv = views_of(paths@);
    let mut i: usize = 0;
    while i < paths.len()
        invariant
            i <= paths@.len(),
            forall|j: int|
                0 <= j < i ==> (if want_add {
                    !is_template_add_name(file_name_of(#[trigger] pv[j]))
                } else {
                    !is_template_sub_name(file_name_of(#[trigger] pv[j]))
                }),
        decreases paths@.len() - i,
    {
        proof {
            assert(pv[i as int] == paths@[i as int]@);
        }
        let name = file_name(paths[i].as_str());
        let hit = if want_add {
            template_add_is_match(name)
        } else {
            template_sub_is_match(name)
        };
        if hit {
            return Some(i);
        }
        i += 1;
    }
    None
}

/// Finds the template pair anywhere in the listing: the first file named
/// like the add template and the first named like the sub template, whose
/// extensions must agree.
#[verifier::loop_isolation(false)]
pub fn discover_template(paths: &Vec<String>) -> (r: Result<Template, CustomError>)
    ensures
        ({
            let pv = views_of(paths@);
            &&& r matches Ok(t) ==> exists|ia: int, ib: int|
                #![trigger first_add_template(pv, ia), first_sub_template(pv, ib)]
                {
                    &&& first_add_template(pv, ia)
                    &&& first_sub_template(pv, ib)
                    &&& t.add_path@ == pv[ia]
                    &&& t.sub_path@ == pv[ib]
                    &&& t.extension@ == file_name_of(pv[ia]).skip(12)
                    &&& file_name_of(pv[ia]).skip(12) == file_name_of(pv[ib]).skip(12)
                }
            &&& r matches Ok(t) ==> t.extension@.len() <= t.add_path@.len()
            &&& r is Err <==> no_template_pair(pv)
        }),
{
    let ghost pv = views_of(paths@);
    let add_at = match first_template(paths, true) {
        Some(i) => i,
        None => {
            return Err(CustomError::new("add template file was not found"));
        },
    };
    let sub_at = match first_template(paths, false) {
        Some(i) => i,
        None => {
            return Err(CustomError::new("sub template file was not found"));
        },
    };
    let add_name = file_name(paths[add_at].as_str());
    let sub_name = file_name(paths[sub_at].as_str());
    let add_len = add_name.unicode_len();
    let sub_len = sub_name.unicode_len();
    let add_ext = add_name.substring_char(12, add_len);
    let sub_ext = sub_name.substring_char(12, sub_len);
    if !str_eq(add_ext, sub_ext) {
        return Err(CustomError::new("template extensions for add and sub do not match"));
    }
    proof {
        assert(first_add_template(pv, add_at as int));
        assert(first_sub_template(pv, sub_at as int));
        assert(pv[add_at as int] == paths@[add_at as int]@);
        assert(pv[sub_at as int] == paths@[sub_at as int]@);
        assert(add_ext@ =~= file_name_of(pv[add_at as int]).skip(12));
        assert(sub_ext@ =~= file_name_of(pv[sub_at as int]).skip(12));
        lemma_file_name_len(pv[add_at as int]);
        assert forall|ia: int, ib: int|
            first_add_template(pv, ia) && first_sub_template(pv, ib) implies ia == add_at as int
            && ib == sub_at as int by {
            if ia < add_at as int {
                assert(is_template_add_name(file_name_of(pv[ia])));
            }
            if ib < sub_at as int {
                assert(is_template_sub_name(file_name_of(pv[ib])));
            }
        }
    }
    Ok(
        Template {
            extension: add_ext.to_owned(),
            add_path: paths[add_at].clone(),
            sub_path: paths[sub_at].clone(),
        },
    )
}

/// Inserts a motion into a vector sorted by add file name, after any
/// motions whose add file name is equal.
#[verifier::loop_isolation(false)]
fn insert_sorted(motions: &mut Vec<Motion>, m: Motion)
    requires
        sorted_by_file(old(motions)@),
    ensures
        sorted_by_file(final(motions)@),
        final(motions)@.len() == old(motions)@.len() + 1,
        forall|k: int|
            0 <= k < final(motions)@.len() ==> (#[trigger] final(motions)@[k] == m || old(
                motions,
            )@.contains(final(motions)@[k])),
        forall|k: int|
            0 <= k < old(motions)@.len() ==> final(motions)@.contains(#[trigger] old(motions)@[k]),
        final(motions)@.contains(m),
{
    let key = file_name(m.add_path.as_str());
    let mut pos: usize = 0;
    while pos < motions.len() && str_le(file_name(motions[pos].add_path.as_str()), key)
        invariant
            pos <= motions@.len(),
            forall|q: int|
                0 <= q < pos ==> lex_leq(
                    file_name_of(#[trigger] motions@[q].add_path@),
                    file_name_of(m.add_path@),
                ),
        decreases motions@.len() - pos,
    {
        pos += 1;
    }
    proof {
        if (pos as int) < motions@.len() {
            lemma_lex_total(
                file_name_of(motions@[pos as int].add_path@),
                file_name_of(m.add_path@),
            );
        }
    }
    let ghost before = motions@;
    let ghost p = pos as int;
    motions.insert(pos, m);
    proof {
        assert(motions@ == before.insert(p, m));
        assert forall|k: int| 0 <= k < motions@.len() implies (#[trigger] motions@[k] == m
            || before.contains(motions@[k])) by {
            if k < p {
                assert(motions@[k] == before[k]);
            } else if k > p {
                assert(motions@[k] == before[k - 1]);
            }
        }
        assert forall|k: int| 0 <= k < before.len() implies motions@.contains(
            #[trigger] before[k],
        ) by {
            if k < p {
                assert(motions@[k] == before[k]);
            } else {
                assert(motions@[k + 1] == before[k]);
            }
        }
        assert(motions@[p] == m);
        assert forall|k1: int, k2: int| 0 <= k1 < k2 < motions@.len() implies #[trigger] lex_leq(
            file_name_of(motions@[k1].add_path@),
            file_name_of(motions@[k2].add_path@),
        ) by {
            if k2 < p {
                assert(motions@[k1] == before[k1] && motions@[k2] == before[k2]);
            } else if k1 > p {
                assert(motions@[k1] == before[k1 - 1] && motions@[k2] == before[k2 - 1]);
            } else if k1 < p && k2 == p {
                assert(motions@[k1] == before[k1]);
            } else if k1 == p {
                assert(motions@[k2] == before[k2 - 1]);
                if k2 - 1 > p {
                    assert(lex_leq(
                        file_name_of(before[p].add_path@),
                        file_name_of(before[k2 - 1].add_path@),
                    ));
                    lemma_lex_trans(
                        file_name_of(m.add_path@),
                        file_name_of(before[p].add_path@),
                        file_name_of(before[k2 - 1].add_path@),
                    );
                }
            } else {
                assert(motions@[k1] == before[k1] && motions@[k2] == before[k2 - 1]);
                assert(k1 < k2 - 1);
            }
        }
    }
}

/// Pairs every add motion file among the paths with the first sub motion
/// file sharing its stem, ordered by the add file's name. Errors when some
/// add file has no sub counterpart. As in the newer discovery, the exact
/// clauses hold for listings of ASCII paths.
#[verifier::loop_isolation(false)]
pub fn discover_motions(template: &Template, paths: &Vec<String>) -> (r: Result<
    Vec<Motion>,
    CustomError,
>)
    requires
        template.extension@.len() <= 4096,
    ensures
        ({
            let pv = views_of(paths@);
            let ext = template.extension@;
            let all_ascii = forall|i: int| 0 <= i < pv.len() ==> ascii_only(#[trigger] pv[i]);
            &&& all_ascii ==> (r is Err <==> exists|i: int|
                {
                    &&& 0 <= i < pv.len()
                    &&& is_motion_add_path(#[trigger] pv[i], ext)
                    &&& no_sub_for(pv, ext, stem_of(pv[i], "add"@, ext))
                })
            &&& all_ascii ==> (r matches Ok(ms) ==> {
                &&& sorted_by_file(ms@)
                &&& forall|k: int|
                    0 <= k < ms@.len() ==> valid_motion_pair(#[trigger] ms@[k], pv, ext)
                &&& forall|i: int|
                    0 <= i < pv.len() && is_motion_add_path(#[trigger] pv[i], ext)
                        ==> has_add_path(ms@, pv[i])
            })
        }),
{
    let ghost pv = views_of(paths@);
    let ghost ext = template.extension@;
    let ghost all_ascii = forall|i: int| 0 <= i < pv.len() ==> ascii_only(#[trigger] pv[i]);
    proof {
        reveal_strlit("add");
        reveal_strlit("sub");
    }
    let ext_len = template.extension.unicode_len();
    let mut motions: Vec<Motion> = Vec::new();
    let mut i: usize = 0;
    while i < paths.len()
        invariant
            i <= paths@.len(),
            sorted_by_file(motions@),
            all_ascii ==> forall|k: int|
                0 <= k < motions@.len() ==> valid_motion_pair(#[trigger] motions@[k], pv, ext),
            all_ascii ==> forall|j: int|
                0 <= j < i && is_motion_add_path(#[trigger] pv[j], ext) ==> has_add_path(
                    motions@,
                    pv[j],
                ),
        decreases paths@.len() - i,
    {
        let name_i = file_name(paths[i].as_str());
        let name_len = name_i.unicode_len();
        proof {
            assert(pv[i as int] == paths@[i as int]@);
            if all_ascii {
                lemma_ascii_file_name(pv[i as int]);
            }
        }
        if motion_add_is_match(name_i, template.extension.as_str()) && name_len >= 8 + 4
            + ext_len {
            let stem_i = name_i.substring_char(0, name_len - (4 + ext_len));
            proof {
                if all_ascii {
                    assert(is_motion_add_path(pv[i as int], ext));
                    assert(stem_i@ == stem_of(pv[i as int], "add"@, ext));
                }
            }
            // Get the sub path with a name that matches our add path's stem.
            let mut sub_found: Option<String> = None;
            let mut j: usize = 0;
            while j < paths.len() && sub_found.is_none()
                invariant
                    j <= paths@.len(),
                    all_ascii ==> (sub_found is None ==> forall|q: int|
                        0 <= q < j ==> !(is_motion_sub_path(#[trigger] pv[q], ext) && stem_of(
                            pv[q],
                            "sub"@,
                            ext,
                        ) == stem_i@)),
                    all_ascii ==> (sub_found matches Some(s) ==> first_sub_for(
                        pv,
                        ext,
                        stem_i@,
                        s@,
                    )),
                decreases paths@.len() - j,
            {
                let name_j = file_name(paths[j].as_str());
                let nj_len = name_j.unicode_len();
                proof {
                    assert(pv[j as int] == paths@[j as int]@);
                    if all_ascii {
                        lemma_ascii_file_name(pv[j as int]);
                    }
                }
                if motion_sub_is_match(name_j, template.extension.as_str()) && nj_len >= 8 + 4
                    + ext_len {
                    let stem_j = name_j.substring_char(0, nj_len - (4 + ext_len));
                    proof {
                        if all_ascii {
                            assert(stem_j@ == stem_of(pv[j as int], "sub"@, ext));
                        }
                    }
                    if str_eq(stem_i, stem_j) {
                        sub_found = Some(paths[j].clone());
                    }
                }
                j += 1;
            }
            match sub_found {
                None => {
                    proof {
                        if all_ascii {
                            assert(no_sub_for(pv, ext, stem_of(pv[i as int], "add"@, ext)));
                        }
                    }
                    return Err(CustomError::new("sub file not found for an add file"));
                },
                Some(sub_path) => {
                    let m = Motion { add_path: paths[i].clone(), sub_path };
                    let ghost gm = m;
                    let ghost before_ms = motions@;
                    proof {
                        if all_ascii {
                            assert(gm.add_path@ == pv[i as int]);
                            assert(valid_motion_pair(gm, pv, ext));
                        }
                    }
                    insert_sorted(&mut motions, m);
                    proof {
                        if all_ascii {
                            assert forall|k: int|
                                0 <= k < motions@.len() implies valid_motion_pair(
                                #[trigger] motions@[k],
                                pv,
                                ext,
                            ) by {
                                if motions@[k] != gm {
                                    assert(before_ms.contains(motions@[k]));
                                    let q = choose|q: int|
                                        0 <= q < before_ms.len() && before_ms[q] == motions@[k];
                                    assert(valid_motion_pair(before_ms[q], pv, ext));
                                }
                            }
                            assert forall|j2: int|
                                0 <= j2 < i + 1 && is_motion_add_path(
                                #[trigger] pv[j2],
                                ext,
                            ) implies has_add_path(motions@, pv[j2]) by {
                                if j2 == i as int {
                                    assert(motions@.contains(gm));
                                    let idx = choose|idx: int|
                                        0 <= idx < motions@.len() && motions@[idx] == gm;
                                    assert(motions@[idx].add_path@ == pv[j2]);
                                } else {
                                    assert(has_add_path(before_ms, pv[j2]));
                                    let k = choose|k: int|
                                        0 <= k < before_ms.len()
                                            && #[trigger] before_ms[k].add_path@ == pv[j2];
                                    assert(motions@.contains(before_ms[k]));
                                    let k2 = choose|k2: int|
                                        0 <= k2 < motions@.len() && motions@[k2] == before_ms[k];
                                    assert(motions@[k2].add_path@ == pv[j2]);
                                }
                            }
                        }
                    }
                },
            }
        }
        i += 1;
    }
    proof {
        if all_ascii {
            assert forall|q: int|
                0 <= q < pv.len() && is_motion_add_path(#[trigger] pv[q], ext) implies !no_sub_for(
                pv,
                ext,
                stem_of(pv[q], "add"@, ext),
            ) by {
                assert(has_add_path(motions@, pv[q]));
                let k = choose|k: int| 0 <= k < motions@.len() && #[trigger] motions@[k].add_path@
                    == pv[q];
                assert(valid_motion_pair(motions@[k], pv, ext));
            }
        }
    }
    Ok(motions)
}

/// Discovers a directory listing's template pair and its paired, ordered
/// motions.
pub fn discover(paths: &Vec<String>) -> (r: Result<Motions, CustomError>)
    requires
        forall|i: int| 0 <= i < paths@.len() ==> (#[trigger] paths@[i]@).len() <= 4096,
    ensures
        ({
            let pv = views_of(paths@);
            let all_ascii = forall|i: int| 0 <= i < pv.len() ==> ascii_only(#[trigger] pv[i]);
            &&& no_template_pair(pv) ==> r is Err
            &&& all_ascii ==> (r is Err <==> (no_template_pair(pv) || exists|ia: int, ib: int|
                #![trigger first_add_template(pv, ia), first_sub_template(pv, ib)]
                {
                    &&& first_add_template(pv, ia)
                    &&& first_sub_template(pv, ib)
                    &&& file_name_of(pv[ia]).skip(12) == file_name_of(pv[ib]).skip(12)
                    &&& exists|i: int|
                        {
                            &&& 0 <= i < pv.len()
                            &&& is_motion_add_path(#[trigger] pv[i], file_name_of(pv[ia]).skip(12))
                            &&& no_sub_for(
                                pv,
                                file_name_of(pv[ia]).skip(12),
                                stem_of(pv[i], "add"@, file_name_of(pv[ia]).skip(12)),
                            )
                        }
                }))
            &&& all_ascii ==> (r matches Ok(found) ==> {
                &&& sorted_by_file(found.motions@)
                &&& forall|k: int|
                    0 <= k < found.motions@.len() ==> valid_motion_pair(
                        #[trigger] found.motions@[k],
                        pv,
                        found.template.extension@,
                    )
                &&& forall|i: int|
                    0 <= i < pv.len() && is_motion_add_path(
                        #[trigger] pv[i],
                        found.template.extension@,
                    ) ==> has_add_path(found.motions@, pv[i])
                &&& exists|ia: int, ib: int|
                    #![trigger first_add_template(pv, ia), first_sub_template(pv, ib)]
                    {
                        &&& first_add_template(pv, ia)
                        &&& first_sub_template(pv, ib)
                        &&& found.template.extension@ == file_name_of(pv[ia]).skip(12)
                    }
            })
        }),
{
    let template = match discover_template(paths) {
        Ok(t) => t,
        Err(e) => {
            return Err(e);
        },
    };
    let motions = discover_motions(&template, paths);
    proof {
        let pv = views_of(paths@);
        let all_ascii = forall|i: int| 0 <= i < pv.len() ==> ascii_only(#[trigger] pv[i]);
        let (ia, ib) = choose|ia: int, ib: int|
            #![trigger first_add_template(pv, ia), first_sub_template(pv, ib)]
            {
                &&& first_add_template(pv, ia)
                &&& first_sub_template(pv, ib)
                &&& template.extension@ == file_name_of(pv[ia]).skip(12)
                &&& file_name_of(pv[ia]).skip(12) == file_name_of(pv[ib]).skip(12)
            };
        if all_ascii {
            // Any first template pair is this one, so any unpaired add
            // file under its extension is one under the template's.
            assert forall|ia2: int, ib2: int|
                first_add_template(pv, ia2) && first_sub_template(pv, ib2) implies file_name_of(
                pv[ia2],
            ).skip(12) == template.extension@ by {
                lemma_firsts_unique(pv, ia, ib, ia2, ib2);
            }
        }
    }
    match motions {
        Ok(motions) => Ok(Motions { template, motions }),
        Err(e) => Err(e),
    }
}

} // verus!
