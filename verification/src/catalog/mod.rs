//! Motions as the accelerator and the drivers consume them: an identity, a
//! semantic version, and the full text of the forward and backward scripts.

pub mod template;

use vstd::prelude::*;
use crate::error::CustomError;
use crate::text::digits_value;
use crate::text::dec_len;
use crate::text::is_digit_char;
use crate::text::lemma_digits_leading_zero;
use crate::text::lemma_digits_take_le;
use crate::text::lemma_digits_value_nonneg;
use crate::text::lex_leq;
use crate::text::str_eq;
use crate::text::str_le;
use crate::text::usize_to_string;
use template::cookie_stem;
use template::is_cookie_motion_name;
use template::motion_matches;
use template::version_digits_ok;
use template::version_len;
use template::Template;

verus! {

/// The motion which will be applied to the driver. Can be either added or
/// subbed.
#[derive(Debug, PartialEq, Eq, Clone)]
pub struct Motion {
    /// The disambiguated motion name.
    pub name: String,
    /// The motion semantic version as a vector.
    pub version: Vec<usize>,
    /// The motion's file extension.
    pub extension: String,
    /// The add script to be executed by the driver.
    pub add: String,
    /// The sub script to be executed by the driver.
    pub sub: String,
}

/// A file of the motions directory: the directory it lies in and its own
/// name.
#[derive(Debug, PartialEq, Eq)]
pub struct DirFile {
    pub dir: String,
    pub name: String,
}

/// The order the directory files are walked in: by directory first, then
/// by name.
pub open spec fn dirfile_leq(a: DirFile, b: DirFile) -> bool {
    lex_leq(a.dir@, b.dir@) && (a.dir@ == b.dir@ ==> lex_leq(a.name@, b.name@))
}

/// Decides the directory file order.
fn dirfile_le(a: &DirFile, b: &DirFile) -> (r: bool)
    ensures
        r == dirfile_leq(*a, *b),
{
    if str_eq(a.dir.as_str(), b.dir.as_str()) {
        proof {
            crate::text::lemma_lex_total(a.dir@, a.dir@);
        }
        str_le(a.name.as_str(), b.name.as_str())
    } else {
        str_le(a.dir.as_str(), b.dir.as_str())
    }
}

/// True when each value is the number its digit group in `name` spells,
/// group for group.
pub open spec fn group_values_ok(
    name: Seq<char>,
    at: int,
    shape: Seq<usize>,
    vals: Seq<usize>,
) -> bool
    decreases shape.len(),
{
    if shape.len() != vals.len() {
        false
    } else if shape.len() == 0 {
        true
    } else {
        &&& vals[0] as int == digits_value(name.subrange(at, at + shape[0]))
        &&& group_values_ok(name, at + shape[0] + 1, shape.skip(1), vals.skip(1))
    }
}

/// True when every digit group fits a machine word.
pub open spec fn groups_fit(name: Seq<char>, at: int, shape: Seq<usize>) -> bool
    decreases shape.len(),
{
    if shape.len() == 0 {
        true
    } else {
        &&& digits_value(name.subrange(at, at + shape[0])) <= usize::MAX as int
        &&& (shape.len() > 1 ==> groups_fit(name, at + shape[0] + 1, shape.skip(1)))
    }
}

/// Reads the digit groups of a motion name into their numbers, from group
/// `k` on.
#[verifier::loop_isolation(false)]
fn parse_groups(name: &str, at: usize, shape: &Vec<usize>, k: usize) -> (r: Vec<usize>)
    requires
        k <= shape@.len(),
        at <= name@.len(),
        version_digits_ok(name@, at as int, shape@.skip(k as int)),
        groups_fit(name@, at as int, shape@.skip(k as int)),
    ensures
        group_values_ok(name@, at as int, shape@.skip(k as int), r@),
    decreases shape@.len() - k,
{
    let mut out: Vec<usize> = Vec::new();
    if k == shape.len() {
        return out;
    }
    let total_len = name.unicode_len();
    proof {
        assert(shape@.skip(k as int)[0] == shape@[k as int]);
        assert(shape@.skip(k as int).skip(1) =~= shape@.skip(k as int + 1));
        assert(version_digits_ok(name@, at as int, shape@.skip(k as int)));
        assert(at as int + shape@[k as int] <= name@.len());
    }
    let group = shape[k];
    proof {
        assert(at + group <= name@.len());
    }
    let ghost gseq = name@.subrange(at as int, at as int + group);
    let mut acc: usize = 0;
    let mut i: usize = at;
    proof {
        assert(name@.subrange(at as int, at as int) =~= gseq.take(0));
        assert(digits_value(gseq.take(0)) == 0);
    }
    while i < at + group
        invariant
            at <= i <= at + group <= name@.len(),
            acc as int == digits_value(gseq.take(i - at)),
        decreases at + group - i,
    {
        let c = name.get_char(i);
        proof {
            assert(is_digit_char(name@[i as int]));
        }
        let d = (c as u32 - 48) as usize;
        proof {
            assert(gseq.take(i - at + 1).drop_last() =~= gseq.take(i - at));
            assert(gseq.take(i - at + 1).last() == name@[i as int]);
            assert(forall|q: int| 0 <= q < gseq.len() ==> is_digit_char(#[trigger] gseq[q]));
            lemma_digits_take_le(gseq, i - at + 1);
            assert(gseq.take(gseq.len() as int) =~= gseq);
            assert(digits_value(gseq.take(i - at + 1)) <= digits_value(gseq));
            assert(digits_value(gseq) <= usize::MAX as int);
            lemma_digits_value_nonneg(gseq.take(i - at + 1));
        }
        acc = acc * 10 + d;
        i += 1;
    }
    proof {
        assert(gseq.take(group as int) =~= gseq);
    }
    out.push(acc);
    if k + 1 == shape.len() {
        proof {
            let sh = shape@.skip(k as int);
            assert(out@.skip(1) =~= Seq::<usize>::empty());
            assert(sh.skip(1) =~= Seq::<usize>::empty());
            assert(out@.len() == 1 && sh.len() == 1);
            assert(out@[0] == acc);
            assert(out@[0] as int == digits_value(name@.subrange(at as int, at as int + sh[0])));
            assert(group_values_ok(name@, at as int + sh[0] + 1, sh.skip(1), out@.skip(1)));
        }
        return out;
    }
    let mut rest = parse_groups(name, at + group + 1, shape, k + 1);
    let ghost rest_view = rest@;
    out.append(&mut rest);
    proof {
        assert(out@.skip(1) =~= rest_view);
        assert(out@[0] == acc);
    }
    out
}

/// Reads the semantic version a motion file name carries under the
/// cookie's shape.
pub fn version_from_string(tmp: &Template, name: &String) -> (r: Vec<usize>)
    requires
        is_cookie_motion_name(
            name@,
            tmp.version@,
            tmp.separator@,
            tmp.extension@,
            "add"@,
        ) || is_cookie_motion_name(
            name@,
            tmp.version@,
            tmp.separator@,
            tmp.extension@,
            "sub"@,
        ),
        groups_fit(name@, 0, tmp.version@),
    ensures
        group_values_ok(name@, 0, tmp.version@, r@),
{
    let len = name.as_str().unicode_len();
    proof {
        assert(tmp.version@.skip(0) =~= tmp.version@);
    }
    parse_groups(name.as_str(), 0, &tmp.version, 0)
}

/// The version part and the stem of a motion file name, joined by a comma:
/// what two file names must share to be the add and sub of one motion.
pub open spec fn disambiguated(
    name: Seq<char>,
    shape: Seq<usize>,
    sep: Seq<char>,
    ext: Seq<char>,
) -> Seq<char> {
    name.take(version_len(shape)) + seq![','] + cookie_stem(name, shape, sep, ext)
}

/// Renders the part of a motion file name that identifies the motion: its
/// version and its stem, without the operation or extension.
pub fn disambiguate(tmp: &Template, name: &String) -> (r: String)
    requires
        is_cookie_motion_name(
            name@,
            tmp.version@,
            tmp.separator@,
            tmp.extension@,
            "add"@,
        ) || is_cookie_motion_name(
            name@,
            tmp.version@,
            tmp.separator@,
            tmp.extension@,
            "sub"@,
        ),
    ensures
        r@ == disambiguated(name@, tmp.version@, tmp.separator@, tmp.extension@),
{
    proof {
        reveal_strlit("add");
        reveal_strlit("sub");
        reveal_strlit(",");
    }
    let len = name.as_str().unicode_len();
    let sep_len = tmp.separator.unicode_len();
    let ext_len = tmp.extension.unicode_len();
    let vl = match template::version_len_from(&tmp.version, 0) {
        Some(v) => v,
        None => {
            proof {
                assert(tmp.version@.skip(0) =~= tmp.version@);
                assert(false);
            }
            0
        },
    };
    proof {
        assert(tmp.version@.skip(0) =~= tmp.version@);
    }
    let version_part = name.as_str().substring_char(0, vl);
    let stem = name.as_str().substring_char(vl + sep_len, len - 4 - ext_len);
    let joined = version_part.to_owned().concat(",").concat(stem);
    proof {
        assert(joined@ =~= disambiguated(name@, tmp.version@, tmp.separator@, tmp.extension@));
    }
    joined
}

/// Pads a number with leading zeros to exactly `max` digits. The number
/// must fit: this mirrors a version scheme that cannot grow a group.
pub fn pad_number(num: usize, max: usize) -> (r: String)
    requires
        dec_len(num as int) <= max,
    ensures
        r@.len() == max,
        forall|i: int| 0 <= i < r@.len() ==> is_digit_char(#[trigger] r@[i]),
        digits_value(r@) == num as int,
{
    let mut s = usize_to_string(num);
    let mut s_len = s.as_str().unicode_len();
    while s_len < max
        invariant
            s_len == s@.len(),
            s@.len() <= max,
            forall|i: int| 0 <= i < s@.len() ==> is_digit_char(#[trigger] s@[i]),
            digits_value(s@) == num as int,
        decreases max - s_len,
    {
        let ghost old_view = s@;
        let prefixed = String::from_str("0").concat(s.as_str());
        proof {
            reveal_strlit("0");
            assert(prefixed@ =~= seq!['0'] + old_view);
            lemma_digits_leading_zero(old_view);
        }
        s = prefixed;
        s_len += 1;
    }
    s
}

/// True when `s` is a version rendering: digit groups of the mold's sizes
/// joined by dots, spelling the given values.
pub open spec fn version_string_ok(s: Seq<char>, ver: Seq<usize>, mold: Seq<usize>) -> bool
    decreases mold.len(),
{
    if mold.len() != ver.len() {
        false
    } else if mold.len() == 0 {
        s.len() == 0
    } else if mold.len() == 1 {
        &&& s.len() == mold[0]
        &&& (forall|i: int| 0 <= i < s.len() ==> is_digit_char(#[trigger] s[i]))
        &&& digits_value(s) == ver[0] as int
    } else {
        &&& s.len() > mold[0]
        &&& (forall|i: int| 0 <= i < mold[0] ==> is_digit_char(#[trigger] s[i]))
        &&& digits_value(s.take(mold[0] as int)) == ver[0] as int
        &&& s[mold[0] as int] == '.'
        &&& version_string_ok(s.skip(mold[0] as int + 1), ver.skip(1), mold.skip(1))
    }
}

/// Appending one more dotted group keeps a version rendering valid.
proof fn lemma_version_string_push(
    s: Seq<char>,
    ver: Seq<usize>,
    mold: Seq<usize>,
    g: Seq<char>,
    v: usize,
    m: usize,
)
    requires
        version_string_ok(s, ver, mold),
        mold.len() >= 1,
        g.len() == m,
        forall|i: int| 0 <= i < g.len() ==> is_digit_char(#[trigger] g[i]),
        digits_value(g) == v as int,
    ensures
        version_string_ok(s + seq!['.'] + g, ver.push(v), mold.push(m)),
    decreases mold.len(),
{
    let s2 = s + seq!['.'] + g;
    if mold.len() == 1 {
        assert(s2.len() == mold[0] + 1 + m);
        assert(s2.take(mold[0] as int) =~= s);
        assert(s2[mold[0] as int] == '.');
        assert(s2.skip(mold[0] as int + 1) =~= g);
        assert(ver.push(v).skip(1) =~= seq![v]);
        assert(mold.push(m).skip(1) =~= seq![m]);
        assert(version_string_ok(g, seq![v], seq![m]));
    } else {
        assert(s2.take(mold[0] as int) =~= s.take(mold[0] as int));
        assert(s2[mold[0] as int] == s[mold[0] as int]);
        assert(s2.skip(mold[0] as int + 1) =~= s.skip(mold[0] as int + 1) + seq!['.'] + g);
        assert(ver.push(v).skip(1) =~= ver.skip(1).push(v));
        assert(mold.push(m).skip(1) =~= mold.skip(1).push(m));
        lemma_version_string_push(s.skip(mold[0] as int + 1), ver.skip(1), mold.skip(1), g, v, m);
    }
}

/// Renders a semantic version against the mold's group sizes: each value
/// zero padded to its group's width, the groups joined by dots.
#[verifier::loop_isolation(false)]
pub fn version_to_string(ver: &Vec<usize>, mold: &Vec<usize>) -> (r: String)
    requires
        ver@.len() >= mold@.len(),
        forall|i: int| 0 <= i < mold@.len() ==> dec_len(#[trigger] ver@[i] as int) <= mold@[i],
    ensures
        version_string_ok(r@, ver@.take(mold@.len() as int), mold@),
{
    let mut out = String::new();
    let mut k: usize = 0;
    while k < mold.len()
        invariant
            k <= mold@.len(),
            version_string_ok(out@, ver@.take(k as int), mold@.take(k as int)),
        decreases mold@.len() - k,
    {
        let piece = pad_number(ver[k], mold[k]);
        let ghost before = out@;
        if k > 0 {
            out.append(".");
            proof {
                reveal_strlit(".");
            }
        }
        out.append(piece.as_str());
        proof {
            if k == 0 {
                assert(out@ =~= piece@);
                assert(ver@.take(1) =~= seq![ver@[0]]);
                assert(mold@.take(1) =~= seq![mold@[0]]);
                assert(version_string_ok(piece@, seq![ver@[0]], seq![mold@[0]]));
            } else {
                assert(out@ =~= before + seq!['.'] + piece@);
                lemma_version_string_push(
                    before,
                    ver@.take(k as int),
                    mold@.take(k as int),
                    piece@,
                    ver@[k as int],
                    mold@[k as int],
                );
                assert(ver@.take(k as int).push(ver@[k as int]) =~= ver@.take(k as int + 1));
                assert(mold@.take(k as int).push(mold@[k as int]) =~= mold@.take(k as int + 1));
            }
        }
        k += 1;
    }
    proof {
        assert(mold@.take(mold@.len() as int) =~= mold@);
    }
    out
}

/// True when the file's name is a motion file name under the cookie, for
/// either operation.
pub open spec fn is_cookie_motion_file(
    f: DirFile,
    shape: Seq<usize>,
    sep: Seq<char>,
    ext: Seq<char>,
) -> bool {
    ||| is_cookie_motion_name(f.name@, shape, sep, ext, "add"@)
    ||| is_cookie_motion_name(f.name@, shape, sep, ext, "sub"@)
}

/// True when the motion was paired from an add file and a sub file of the
/// listing that agree on version and stem, and carries their bodies and
/// the add file's stem and version.
pub open spec fn valid_cookie_pair(
    m: Motion,
    files: Seq<DirFile>,
    bodies: Seq<String>,
    shape: Seq<usize>,
    sep: Seq<char>,
    ext: Seq<char>,
) -> bool {
    exists|ai: int, si: int|
        #![trigger files[ai], files[si]]
        {
            &&& 0 <= ai < files.len()
            &&& 0 <= si < files.len()
            &&& is_cookie_motion_name(files[ai].name@, shape, sep, ext, "add"@)
            &&& is_cookie_motion_name(files[si].name@, shape, sep, ext, "sub"@)
            &&& disambiguated(files[ai].name@, shape, sep, ext) == disambiguated(
                files[si].name@,
                shape,
                sep,
                ext,
            )
            &&& m.name@ == cookie_stem(files[ai].name@, shape, sep, ext)
            &&& group_values_ok(files[ai].name@, 0, shape, m.version@)
            &&& ai < bodies.len() && m.add@ == bodies[ai]@
            &&& si < bodies.len() && m.sub@ == bodies[si]@
        }
}

/// A file name is never both an add and a sub motion name at once: the
/// operation word sits at a fixed place.
proof fn lemma_ops_exclusive(name: Seq<char>, shape: Seq<usize>, sep: Seq<char>, ext: Seq<char>)
    ensures
        !(is_cookie_motion_name(name, shape, sep, ext, "add"@) && is_cookie_motion_name(
            name,
            shape,
            sep,
            ext,
            "sub"@,
        )),
{
    reveal_strlit("add");
    reveal_strlit("sub");
    if is_cookie_motion_name(name, shape, sep, ext, "add"@) && is_cookie_motion_name(
        name,
        shape,
        sep,
        ext,
        "sub"@,
    ) {
        let name_end = name.len() - 4 - ext.len();
        assert(name.subrange(name_end, name.len() as int)[1] == (seq!['.'] + "add"@ + ext)[1]);
        assert(name.subrange(name_end, name.len() as int)[1] == (seq!['.'] + "sub"@ + ext)[1]);
        assert((seq!['.'] + "add"@ + ext)[1] == 'a');
        assert((seq!['.'] + "sub"@ + ext)[1] == 's');
    }
}

/// The number of files whose names are motion file names for the given
/// operation under the cookie.
pub open spec fn count_matching(
    files: Seq<DirFile>,
    shape: Seq<usize>,
    sep: Seq<char>,
    ext: Seq<char>,
    op: Seq<char>,
) -> int
    decreases files.len(),
{
    if files.len() == 0 {
        0
    } else {
        (if is_cookie_motion_name(files.last().name@, shape, sep, ext, op) {
            1int
        } else {
            0int
        }) + count_matching(files.drop_last(), shape, sep, ext, op)
    }
}

/// Searches a directory listing for all valid motions under the cookie:
/// the files whose names fit the motion grammar are ordered by directory
/// and name, the add and sub files are paired smallest first, and each
/// pair that agrees on version and stem becomes one motion carrying the
/// two files' bodies (`bodies` runs parallel to `files`). A pair that
/// disagrees is dropped; an add file left without any sub file to pair
/// with is an error, which happens exactly when the adds outnumber the
/// subs.
#[verifier::loop_isolation(false)]
pub fn discover(cookie: &Template, files: &Vec<DirFile>, bodies: &Vec<String>) -> (r: Result<
    Vec<Motion>,
    CustomError,
>)
    requires
        files@.len() == bodies@.len(),
        forall|i: int|
            0 <= i < files@.len() && is_cookie_motion_name(
                (#[trigger] files@[i]).name@,
                cookie.version@,
                cookie.separator@,
                cookie.extension@,
                "add"@,
            ) ==> groups_fit(files@[i].name@, 0, cookie.version@),
    ensures
        ({
            let shape = cookie.version@;
            let sep = cookie.separator@;
            let ext = cookie.extension@;
            &&& r is Err <==> count_matching(files@, shape, sep, ext, "add"@) > count_matching(
                files@,
                shape,
                sep,
                ext,
                "sub"@,
            )
            &&& r matches Ok(ms) ==> forall|k: int|
                0 <= k < ms@.len() ==> (valid_cookie_pair(
                    #[trigger] ms@[k],
                    files@,
                    bodies@,
                    shape,
                    sep,
                    ext,
                ) && ms@[k].extension@ == ext)
        }),
{
    let ghost shape = cookie.version@;
    let ghost sep = cookie.separator@;
    let ghost ext = cookie.extension@;
    // Split the listing into the add pile and the sub pile, by index so
    // that each file's body stays reachable.
    let mut adds: Vec<usize> = Vec::new();
    let mut subs: Vec<usize> = Vec::new();
    let mut i: usize = 0;
    while i < files.len()
        invariant
            i <= files@.len(),
            adds@.len() == count_matching(files@.take(i as int), shape, sep, ext, "add"@),
            subs@.len() == count_matching(files@.take(i as int), shape, sep, ext, "sub"@),
            forall|q: int|
                0 <= q < adds@.len() ==> #[trigger] adds@[q] < files@.len()
                    && is_cookie_motion_name(files@[adds@[q] as int].name@, shape, sep, ext, "add"@),
            forall|q: int|
                0 <= q < subs@.len() ==> #[trigger] subs@[q] < files@.len()
                    && is_cookie_motion_name(files@[subs@[q] as int].name@, shape, sep, ext, "sub"@),
        decreases files@.len() - i,
    {
        proof {
            assert(files@.take(i as int + 1).drop_last() =~= files@.take(i as int));
            assert(files@.take(i as int + 1).last() == files@[i as int]);
        }
        proof {
            lemma_ops_exclusive(files@[i as int].name@, shape, sep, ext);
        }
        if motion_matches(
            files[i].name.as_str(),
            &cookie.version,
            cookie.separator.as_str(),
            cookie.extension.as_str(),
            true,
        ) {
            adds.push(i);
        } else if motion_matches(
            files[i].name.as_str(),
            &cookie.version,
            cookie.separator.as_str(),
            cookie.extension.as_str(),
            false,
        ) {
            subs.push(i);
        }
        i += 1;
    }
    proof {
        assert(files@.take(files@.len() as int) =~= files@);
    }
    // Order each pile by directory and name, as a directory walk would.
    let adds = sort_by_file(adds, files);
    let subs = sort_by_file(subs, files);
    proof {
        assert forall|q: int| 0 <= q < adds@.len() implies #[trigger] adds@[q] < files@.len()
            && is_cookie_motion_name(files@[adds@[q] as int].name@, shape, sep, ext, "add"@) by {}
        assert forall|q: int| 0 <= q < subs@.len() implies #[trigger] subs@[q] < files@.len()
            && is_cookie_motion_name(files@[subs@[q] as int].name@, shape, sep, ext, "sub"@) by {}
    }
    // Pair them off smallest first. A pair whose version or stem disagree
    // is dropped; an add without any sub at all cannot be paired.
    let mut motions: Vec<Motion> = Vec::new();
    let mut a: usize = 0;
    while a < adds.len()
        invariant
            a <= adds@.len(),
            a <= subs@.len(),
            forall|k2: int|
                0 <= k2 < motions@.len() ==> (valid_cookie_pair(
                    #[trigger] motions@[k2],
                    files@,
                    bodies@,
                    shape,
                    sep,
                    ext,
                ) && motions@[k2].extension@ == ext),
        decreases adds@.len() - a,
    {
        if a >= subs.len() {
            return Err(CustomError::new("a motion add file has no sub file to pair with"));
        }
        let ai = adds[a];
        let si = subs[a];
        let da = disambiguate(cookie, &files[ai].name);
        let ds = disambiguate(cookie, &files[si].name);
        if str_eq(da.as_str(), ds.as_str()) {
            let m = Motion {
                name: cookie.get_name(&files[ai].name),
                version: version_from_string(cookie, &files[ai].name),
                extension: cookie.extension.clone(),
                add: bodies[ai].clone(),
                sub: bodies[si].clone(),
            };
            proof {
                assert(valid_cookie_pair(m, files@, bodies@, shape, sep, ext)) by {
                    assert(files@[ai as int] == files@[ai as int]);
                    assert(0 <= (ai as int) && (ai as int) < files@.len());
                    assert(0 <= (si as int) && (si as int) < files@.len());
                }
            }
            motions.push(m);
        }
        a += 1;
    }
    Ok(motions)
}

/// Orders a pile of file indices by the files' directories and names.
#[verifier::loop_isolation(false)]
fn sort_by_file(pile: Vec<usize>, files: &Vec<DirFile>) -> (r: Vec<usize>)
    requires
        forall|q: int| 0 <= q < pile@.len() ==> #[trigger] pile@[q] < files@.len(),
    ensures
        r@.len() == pile@.len(),
        forall|q: int| 0 <= q < r@.len() ==> pile@.contains(#[trigger] r@[q]),
{
    let mut out: Vec<usize> = Vec::new();
    let mut k: usize = 0;
    while k < pile.len()
        invariant
            k <= pile@.len(),
            out@.len() == k,
            forall|q: int| 0 <= q < out@.len() ==> pile@.contains(#[trigger] out@[q]),
        decreases pile@.len() - k,
    {
        let idx = pile[k];
        let mut pos: usize = 0;
        while pos < out.len() && dirfile_le(&files[out[pos]], &files[idx])
            invariant
                pos <= out@.len(),
                forall|q: int| 0 <= q < out@.len() ==> pile@.contains(#[trigger] out@[q]),
            decreases out@.len() - pos,
        {
            pos += 1;
        }
        let ghost before = out@;
        out.insert(pos, idx);
        proof {
            assert forall|q: int| 0 <= q < out@.len() implies pile@.contains(
                #[trigger] out@[q],
            ) by {
                if q < pos {
                    assert(out@[q] == before[q]);
                } else if q > pos {
                    assert(out@[q] == before[q - 1]);
                } else {
                    assert(out@[q] == pile@[k as int]);
                }
            }
        }
        k += 1;
    }
    out
}

} // verus!
