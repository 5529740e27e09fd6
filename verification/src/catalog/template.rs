//! The template cookie: a pair of files like `x.x.xx-template.add.sql` and
//! `x.x.xx-template.sub.sql` defines the version shape, the separator and
//! the extension that every motion file name in the directory must follow.
//! The grammar is the crate's own; these functions decide it character by
//! character.

use vstd::prelude::*;
use crate::error::CustomError;
use crate::text::is_digit_char;
use crate::text::str_eq;
use crate::text::views_of;

verus! {

/// Simple enum defining the add and sub operations.
#[derive(Debug, PartialEq, Eq, Structural, Clone, Copy)]
pub enum Op {
    Add,
    Sub,
}

/// The template type which contains the information needed when
/// discovering and creating motions.
#[derive(Debug)]
pub struct Template {
    /// The name of the add template file.
    pub add_name: String,
    /// The name of the sub template file.
    pub sub_name: String,
    /// The shape of the template's semantic version: one entry per dotted
    /// group, holding the group's digit count. `x.x.xx` turns into
    /// `[1, 1, 2]`.
    pub version: Vec<usize>,
    /// The string between the version and the template name.
    pub separator: String,
    /// The optional extension of the template.
    pub extension: String,
    /// The contents of the add template file.
    pub add: String,
    /// The contents of the sub template file.
    pub sub: String,
}

/// A character the version shape may use.
pub open spec fn is_shape_char(c: char) -> bool {
    c == 'x' || c == '.'
}

/// A character the separator may use.
pub open spec fn is_sep_char(c: char) -> bool {
    c == '-' || c == '_' || c == ' ' || c == '~'
}

/// The end of the maximal run of shape (or separator) characters starting
/// at `from`.
pub open spec fn run_end(name: Seq<char>, from: int, shape: bool) -> int
    decreases name.len() - from,
{
    if from < 0 || from >= name.len() {
        from
    } else if (if shape {
        is_shape_char(name[from])
    } else {
        is_sep_char(name[from])
    }) {
        run_end(name, from + 1, shape)
    } else {
        from
    }
}

/// The scanned end of a run is the maximal run's end.
pub proof fn lemma_run_end_is(name: Seq<char>, from: int, to: int, shape: bool)
    requires
        0 <= from <= to <= name.len(),
        forall|i: int|
            from <= i < to ==> (if shape {
                is_shape_char(#[trigger] name[i])
            } else {
                is_sep_char(#[trigger] name[i])
            }),
        to == name.len() || !(if shape {
            is_shape_char(name[to])
        } else {
            is_sep_char(name[to])
        }),
    ensures
        run_end(name, from, shape) == to,
    decreases to - from,
{
    if from < to {
        lemma_run_end_is(name, from + 1, to, shape);
    }
}

/// True when `name` is a template file name: a non-empty version shape, a
/// non-empty separator, the twelve characters of `word` (`template.add` or
/// `template.sub`), and any extension free of line breaks.
pub open spec fn is_cookie_template_name(name: Seq<char>, word: Seq<char>) -> bool {
    let a = run_end(name, 0, true);
    let b = run_end(name, a, false);
    &&& a >= 1
    &&& b >= a + 1
    &&& b + 12 <= name.len()
    &&& name.subrange(b, b + 12) == word
    &&& forall|i: int| b + 12 <= i < name.len() ==> name[i] != '\n'
}

/// The total character length of a version with this shape: the digit
/// groups and the dots between them.
pub open spec fn version_len(shape: Seq<usize>) -> int
    decreases shape.len(),
{
    if shape.len() == 0 {
        0
    } else if shape.len() == 1 {
        shape[0] as int
    } else {
        shape[0] as int + 1 + version_len(shape.skip(1))
    }
}

/// True when `name` carries, starting at `at`, digit groups of exactly the
/// shape's sizes, separated by dots.
pub open spec fn version_digits_ok(name: Seq<char>, at: int, shape: Seq<usize>) -> bool
    decreases shape.len(),
{
    if shape.len() == 0 {
        true
    } else {
        &&& at >= 0
        &&& at + shape[0] <= name.len()
        &&& (forall|i: int| at <= i < at + shape[0] ==> is_digit_char(#[trigger] name[i]))
        &&& (shape.len() > 1 ==> at + shape[0] < name.len() && name[at + shape[0]] == '.'
            && version_digits_ok(name, at + shape[0] + 1, shape.skip(1)))
    }
}

/// True when `name` is a motion file name under the cookie: a version of
/// the given shape, the separator, a non-empty stem free of line breaks, a
/// dot, the operation word, and the extension.
pub open spec fn is_cookie_motion_name(
    name: Seq<char>,
    shape: Seq<usize>,
    sep: Seq<char>,
    ext: Seq<char>,
    op: Seq<char>,
) -> bool {
    let vl = version_len(shape);
    let name_end = name.len() - 1 - op.len() - ext.len();
    &&& shape.len() >= 1
    &&& version_digits_ok(name, 0, shape)
    &&& vl + sep.len() < name_end
    &&& name.subrange(vl, vl + sep.len()) == sep
    &&& (forall|i: int| vl + sep.len() <= i < name_end ==> name[i] != '\n')
    &&& name.subrange(name_end, name.len() as int) == seq!['.'] + op + ext
}

/// The stem of a motion file name under the cookie: the characters between
/// the separator and the operation suffix.
pub open spec fn cookie_stem(
    name: Seq<char>,
    shape: Seq<usize>,
    sep: Seq<char>,
    ext: Seq<char>,
) -> Seq<char> {
    name.subrange(version_len(shape) + sep.len(), name.len() - 4 - ext.len())
}

/// True when the shape part of a template name consists of `x` groups of
/// the version's sizes, separated by dots, from `at` to the end.
pub open spec fn shape_ok(s: Seq<char>, at: int, version: Seq<usize>) -> bool
    decreases version.len(),
{
    if version.len() == 0 {
        false
    } else if version.len() == 1 {
        &&& 0 <= at
        &&& at + version[0] == s.len()
        &&& (forall|i: int| at <= i < s.len() ==> #[trigger] s[i] == 'x')
    } else {
        &&& 0 <= at
        &&& at + version[0] < s.len()
        &&& (forall|i: int| at <= i < at + version[0] ==> #[trigger] s[i] == 'x')
        &&& s[at + version[0]] == '.'
        &&& shape_ok(s, at + version[0] + 1, version.skip(1))
    }
}

/// Decides whether a character may appear in the version shape.
fn shape_char(c: char) -> (r: bool)
    ensures
        r == is_shape_char(c),
{
    c == 'x' || c == '.'
}

/// Decides whether a character may appear in the separator.
fn sep_char(c: char) -> (r: bool)
    ensures
        r == is_sep_char(c),
{
    c == '-' || c == '_' || c == ' ' || c == '~'
}

/// Scans the shape part of a template name into its version: the length of
/// each `x` group.
#[verifier::loop_isolation(false)]
fn parse_shape(s: &str, at: usize) -> (r: Vec<usize>)
    requires
        at <= s@.len(),
        forall|i: int| at <= i < s@.len() ==> is_shape_char(#[trigger] s@[i]),
    ensures
        shape_ok(s@, at as int, r@),
        r@.len() >= 1,
    decreases s@.len() - at,
{
    let len = s.unicode_len();
    let mut end = at;
    while end < len && s.get_char(end) == 'x'
        invariant
            at <= end <= len,
            forall|i: int| at <= i < end ==> #[trigger] s@[i] == 'x',
        decreases len - end,
    {
        end += 1;
    }
    if end == len {
        let mut out: Vec<usize> = Vec::new();
        out.push(end - at);
        return out;
    }
    assert(s@[end as int] == '.');
    let mut rest = parse_shape(s, end + 1);
    let ghost tail = rest@;
    rest.insert(0, end - at);
    proof {
        assert(rest@.skip(1) =~= tail);
        assert(rest@[0] == (end - at) as usize);
    }
    rest
}

/// Decides whether `name` is a template file name for the given operation.
#[verifier::loop_isolation(false)]
fn template_matches(name: &str, add: bool) -> (r: bool)
    ensures
        r == is_cookie_template_name(
            name@,
            if add {
                "template.add"@
            } else {
                "template.sub"@
            },
        ),
{
    let len = name.unicode_len();
    let mut a: usize = 0;
    while a < len && shape_char(name.get_char(a))
        invariant
            a <= len,
            forall|i: int| 0 <= i < a ==> is_shape_char(#[trigger] name@[i]),
        decreases len - a,
    {
        a += 1;
    }
    proof {
        lemma_run_end_is(name@, 0, a as int, true);
    }
    let mut b: usize = a;
    while b < len && sep_char(name.get_char(b))
        invariant
            a <= b <= len,
            forall|i: int| a <= i < b ==> is_sep_char(#[trigger] name@[i]),
        decreases len - b,
    {
        b += 1;
    }
    proof {
        lemma_run_end_is(name@, a as int, b as int, false);
    }
    if a < 1 || b <= a || len < 12 || b > len - 12 {
        return false;
    }
    let word = name.substring_char(b, b + 12);
    let word_hit = if add {
        str_eq(word, "template.add")
    } else {
        str_eq(word, "template.sub")
    };
    if !word_hit {
        return false;
    }
    let mut i: usize = b + 12;
    while i < len
        invariant
            b + 12 <= i <= len,
            forall|q: int| b + 12 <= q < i ==> name@[q] != '\n',
        decreases len - i,
    {
        if name.get_char(i) == '\n' {
            return false;
        }
        i += 1;
    }
    true
}

/// Computes the character length of a version of this shape, from group
/// `k` on; `None` when it cannot be held in a machine word.
#[verifier::loop_isolation(false)]
pub(crate) fn version_len_from(shape: &Vec<usize>, k: usize) -> (r: Option<usize>)
    requires
        k <= shape@.len(),
    ensures
        r matches Some(v) ==> v == version_len(shape@.skip(k as int)),
        r is None ==> version_len(shape@.skip(k as int)) > usize::MAX,
    decreases shape@.len() - k,
{
    if k == shape.len() {
        return Some(0);
    }
    if k + 1 == shape.len() {
        proof {
            assert(shape@.skip(k as int).len() == 1);
            assert(shape@.skip(k as int)[0] == shape@[k as int]);
        }
        return Some(shape[k]);
    }
    let rest = match version_len_from(shape, k + 1) {
        Some(v) => v,
        None => {
            proof {
                assert(shape@.skip(k as int).skip(1) =~= shape@.skip(k as int + 1));
            }
            return None;
        },
    };
    proof {
        assert(shape@.skip(k as int).skip(1) =~= shape@.skip(k as int + 1));
        assert(shape@.skip(k as int)[0] == shape@[k as int]);
    }
    let with_dot = match rest.checked_add(1) {
        Some(v) => v,
        None => {
            return None;
        },
    };
    match with_dot.checked_add(shape[k]) {
        Some(v) => Some(v),
        None => None,
    }
}

/// Decides whether `name` carries digit groups of the shape's sizes from
/// `at` on.
#[verifier::loop_isolation(false)]
fn digits_ok_from(name: &str, at: usize, shape: &Vec<usize>, k: usize) -> (r: bool)
    requires
        k <= shape@.len(),
        at <= name@.len(),
    ensures
        r == version_digits_ok(name@, at as int, shape@.skip(k as int)),
    decreases shape@.len() - k,
{
    let len = name.unicode_len();
    if k == shape.len() {
        return true;
    }
    proof {
        assert(shape@.skip(k as int)[0] == shape@[k as int]);
        assert(shape@.skip(k as int).skip(1) =~= shape@.skip(k as int + 1));
    }
    let group = shape[k];
    if group > len - at {
        return false;
    }
    let mut i: usize = at;
    while i < at + group
        invariant
            at <= i <= at + group <= len,
            forall|q: int| at <= q < i ==> is_digit_char(#[trigger] name@[q]),
        decreases at + group - i,
    {
        let c = name.get_char(i);
        if !('0' <= c && c <= '9') {
            proof {
                assert(!is_digit_char(name@[i as int]));
            }
            return false;
        }
        i += 1;
    }
    if k + 1 == shape.len() {
        return true;
    }
    if at + group >= len {
        return false;
    }
    if name.get_char(at + group) != '.' {
        return false;
    }
    digits_ok_from(name, at + group + 1, shape, k + 1)
}

/// Decides whether `name` is a motion file name under the cookie for the
/// given operation.
#[verifier::loop_isolation(false)]
pub(crate) fn motion_matches(
    name: &str,
    version: &Vec<usize>,
    separator: &str,
    extension: &str,
    add: bool,
) -> (r: bool)
    ensures
        r == is_cookie_motion_name(
            name@,
            version@,
            separator@,
            extension@,
            if add {
                "add"@
            } else {
                "sub"@
            },
        ),
{
    proof {
        reveal_strlit("add");
        reveal_strlit("sub");
        reveal_strlit(".");
    }
    let ghost op: Seq<char> = if add {
        "add"@
    } else {
        "sub"@
    };
    if version.len() == 0 {
        return false;
    }
    let len = name.unicode_len();
    let sep_len = separator.unicode_len();
    let ext_len = extension.unicode_len();
    let vl = match version_len_from(version, 0) {
        Some(v) => v,
        None => {
            proof {
                assert(version@.skip(0) =~= version@);
            }
            return false;
        },
    };
    proof {
        assert(version@.skip(0) =~= version@);
    }
    // The name must hold the version, the separator, at least one stem
    // character, the dot, the operation and the extension.
    if len < 4 || len - 4 < ext_len {
        return false;
    }
    let name_end = len - 4 - ext_len;
    if vl >= name_end || sep_len >= name_end - vl {
        return false;
    }
    if !digits_ok_from(name, 0, version, 0) {
        return false;
    }
    let sep_part = name.substring_char(vl, vl + sep_len);
    if !str_eq(sep_part, separator) {
        return false;
    }
    let mut i: usize = vl + sep_len;
    while i < name_end
        invariant
            vl + sep_len <= i <= name_end,
            forall|q: int| vl + sep_len <= q < i ==> name@[q] != '\n',
        decreases name_end - i,
    {
        if name.get_char(i) == '\n' {
            return false;
        }
        i += 1;
    }
    let suffix = name.substring_char(name_end, len);
    let expected = String::from_str(".").concat(
        if add {
            "add"
        } else {
            "sub"
        },
    ).concat(extension);
    proof {
        assert(expected@ =~= seq!['.'] + op + extension@);
    }
    if !str_eq(suffix, expected.as_str()) {
        return false;
    }
    true
}

impl Template {
    /// Gets the operation (add or sub) from a motion's name string. A name
    /// like `001-hello-world.add` under a fitting cookie is an add.
    pub fn get_op(&self, name: &String) -> (op: Op)
        requires
            is_cookie_motion_name(
                name@,
                self.version@,
                self.separator@,
                self.extension@,
                "add"@,
            ) || is_cookie_motion_name(
                name@,
                self.version@,
                self.separator@,
                self.extension@,
                "sub"@,
            ),
        ensures
            op == Op::Add <==> is_cookie_motion_name(
                name@,
                self.version@,
                self.separator@,
                self.extension@,
                "add"@,
            ),
    {
        if motion_matches(
            name.as_str(),
            &self.version,
            self.separator.as_str(),
            self.extension.as_str(),
            true,
        ) {
            Op::Add
        } else {
            Op::Sub
        }
    }

    /// Gets the name of a motion without the version, separator, operation
    /// or extension: `001-hello-world.add` gives `hello-world`.
    pub fn get_name(&self, name: &String) -> (r: String)
        requires
            is_cookie_motion_name(
                name@,
                self.version@,
                self.separator@,
                self.extension@,
                "add"@,
            ) || is_cookie_motion_name(
                name@,
                self.version@,
                self.separator@,
                self.extension@,
                "sub"@,
            ),
        ensures
            r@ == cookie_stem(name@, self.version@, self.separator@, self.extension@),
    {
        proof {
            reveal_strlit("add");
            reveal_strlit("sub");
        }
        let len = name.as_str().unicode_len();
        let sep_len = self.separator.unicode_len();
        let ext_len = self.extension.unicode_len();
        let vl = match version_len_from(&self.version, 0) {
            Some(v) => v,
            None => {
                // Unreachable under the contract: a matching name is at
                // least as long as its version part.
                proof {
                    assert(self.version@.skip(0) =~= self.version@);
                    assert(false);
                }
                0
            },
        };
        proof {
            assert(self.version@.skip(0) =~= self.version@);
        }
        let stem = name.as_str().substring_char(vl + sep_len, len - 4 - ext_len);
        stem.to_owned()
    }
}

/// Characters inside a maximal run are of the run's class.
pub proof fn lemma_run_end_chars(name: Seq<char>, from: int, shape: bool)
    requires
        0 <= from <= name.len(),
    ensures
        forall|i: int|
            from <= i < run_end(name, from, shape) ==> (if shape {
                is_shape_char(#[trigger] name[i])
            } else {
                is_sep_char(#[trigger] name[i])
            }),
    decreases name.len() - from,
{
    if from < name.len() && (if shape {
        is_shape_char(name[from])
    } else {
        is_sep_char(name[from])
    }) {
        lemma_run_end_chars(name, from + 1, shape);
    }
}

/// Scans a name's maximal shape run and the separator run after it.
#[verifier::loop_isolation(false)]
fn scan_runs(name: &str) -> (r: (usize, usize))
    ensures
        r.0 as int == run_end(name@, 0, true),
        r.1 as int == run_end(name@, r.0 as int, false),
        r.0 <= r.1 <= name@.len(),
{
    let len = name.unicode_len();
    let mut a: usize = 0;
    while a < len && shape_char(name.get_char(a))
        invariant
            a <= len,
            forall|i: int| 0 <= i < a ==> is_shape_char(#[trigger] name@[i]),
        decreases len - a,
    {
        a += 1;
    }
    proof {
        lemma_run_end_is(name@, 0, a as int, true);
    }
    let mut b: usize = a;
    while b < len && sep_char(name.get_char(b))
        invariant
            a <= b <= len,
            forall|i: int| a <= i < b ==> is_sep_char(#[trigger] name@[i]),
        decreases len - b,
    {
        b += 1;
    }
    proof {
        lemma_run_end_is(name@, a as int, b as int, false);
    }
    (a, b)
}

/// True when index `i` holds the first name matching the template word.
pub open spec fn first_cookie_template(nv: Seq<Seq<char>>, word: Seq<char>, i: int) -> bool {
    &&& 0 <= i < nv.len()
    &&& is_cookie_template_name(nv[i], word)
    &&& forall|j: int| 0 <= j < i ==> !is_cookie_template_name(#[trigger] nv[j], word)
}

/// True when the two template names disagree on shape, separator or
/// extension.
pub open spec fn template_parts_differ(aname: Seq<char>, sname: Seq<char>) -> bool {
    let a1 = run_end(aname, 0, true);
    let b1 = run_end(aname, a1, false);
    let a2 = run_end(sname, 0, true);
    let b2 = run_end(sname, a2, false);
    ||| aname.take(a1) != sname.take(a2)
    ||| aname.subrange(a1, b1) != sname.subrange(a2, b2)
    ||| aname.skip(b1 + 12) != sname.skip(b2 + 12)
}

/// Finds the first name matching the add (or sub) template word.
#[verifier::loop_isolation(false)]
fn first_cookie(names: &Vec<String>, add: bool) -> (r: Option<usize>)
    ensures
        ({
            let nv = views_of(names@);
            let word = if add {
                "template.add"@
            } else {
                "template.sub"@
            };
            &&& r matches Some(i) ==> first_cookie_template(nv, word, i as int)
            &&& r is None ==> forall|j: int|
                0 <= j < nv.len() ==> !is_cookie_template_name(#[trigger] nv[j], word)
        }),
{
    let ghost nv = views_of(names@);
    let mut i: usize = 0;
    while i < names.len()
        invariant
            i <= names@.len(),
            forall|j: int|
                0 <= j < i ==> !is_cookie_template_name(
                    #[trigger] nv[j],
                    if add {
                        "template.add"@
                    } else {
                        "template.sub"@
                    },
                ),
        decreases names@.len() - i,
    {
        proof {
            assert(nv[i as int] == names@[i as int]@);
        }
        if template_matches(names[i].as_str(), add) {
            return Some(i);
        }
        i += 1;
    }
    None
}

impl Template {
    /// Gets the template for a motions directory: searches the file names
    /// for the first add and sub template pair, whose version shape,
    /// separator and extension must agree, and carries the two template
    /// files' contents. The contents themselves are the caller's to read.
    #[verifier::loop_isolation(false)]
    pub fn get(names: &Vec<String>, add_body: String, sub_body: String) -> (r: Result<
        Template,
        CustomError,
    >)
        ensures
            ({
                let nv = views_of(names@);
                &&& r matches Ok(t) ==> exists|ia: int, ib: int|
                    #![trigger first_cookie_template(nv, "template.add"@, ia), first_cookie_template(nv, "template.sub"@, ib)]
                    {
                        &&& first_cookie_template(nv, "template.add"@, ia)
                        &&& first_cookie_template(nv, "template.sub"@, ib)
                        &&& t.add_name@ == nv[ia]
                        &&& t.sub_name@ == nv[ib]
                        &&& !template_parts_differ(nv[ia], nv[ib])
                        &&& ({
                            let a = run_end(nv[ia], 0, true);
                            let b = run_end(nv[ia], a, false);
                            &&& shape_ok(nv[ia].take(a), 0, t.version@)
                            &&& t.separator@ == nv[ia].subrange(a, b)
                            &&& t.extension@ == nv[ia].skip(b + 12)
                        })
                        &&& t.add@ == add_body@
                        &&& t.sub@ == sub_body@
                    }
                &&& r is Err <==> {
                    ||| forall|j: int|
                        0 <= j < nv.len() ==> !is_cookie_template_name(
                            #[trigger] nv[j],
                            "template.add"@,
                        )
                    ||| forall|j: int|
                        0 <= j < nv.len() ==> !is_cookie_template_name(
                            #[trigger] nv[j],
                            "template.sub"@,
                        )
                    ||| exists|ia: int, ib: int|
                        #![trigger first_cookie_template(nv, "template.add"@, ia), first_cookie_template(nv, "template.sub"@, ib)]
                        {
                            &&& first_cookie_template(nv, "template.add"@, ia)
                            &&& first_cookie_template(nv, "template.sub"@, ib)
                            &&& template_parts_differ(nv[ia], nv[ib])
                        }
                }
            }),
    {
        let ghost nv = views_of(names@);
        let add_at = match first_cookie(names, true) {
            Some(i) => i,
            None => {
                return Err(CustomError::new("add template file was not found"));
            },
        };
        let sub_at = match first_cookie(names, false) {
            Some(i) => i,
            None => {
                return Err(CustomError::new("sub template file was not found"));
            },
        };
        proof {
            assert(nv[add_at as int] == names@[add_at as int]@);
            assert(nv[sub_at as int] == names@[sub_at as int]@);
        }
        let add_name = names[add_at].as_str();
        let sub_name = names[sub_at].as_str();
        let add_len = add_name.unicode_len();
        let sub_len = sub_name.unicode_len();
        let (a1, b1) = scan_runs(add_name);
        let (a2, b2) = scan_runs(sub_name);
        proof {
            lemma_run_end_chars(add_name@, 0, true);
        }
        let add_shape = add_name.substring_char(0, a1);
        let sub_shape = sub_name.substring_char(0, a2);
        let add_sep = add_name.substring_char(a1, b1);
        let sub_sep = sub_name.substring_char(a2, b2);
        let add_ext = add_name.substring_char(b1 + 12, add_len);
        let sub_ext = sub_name.substring_char(b2 + 12, sub_len);
        proof {
            assert(add_shape@ =~= add_name@.take(a1 as int));
            assert(sub_shape@ =~= sub_name@.take(a2 as int));
            assert(add_ext@ =~= add_name@.skip(b1 as int + 12));
            assert(sub_ext@ =~= sub_name@.skip(b2 as int + 12));
        }
        if !str_eq(add_shape, sub_shape) || !str_eq(add_sep, sub_sep) || !str_eq(
            add_ext,
            sub_ext,
        ) {
            proof {
                assert(template_parts_differ(nv[add_at as int], nv[sub_at as int]));
            }
            return Err(
                CustomError::new("the add and sub template names do not equal each other"),
            );
        }
        let version = parse_shape(add_shape, 0);
        proof {
            assert(!template_parts_differ(nv[add_at as int], nv[sub_at as int]));
            assert forall|ia: int, ib: int|
                first_cookie_template(nv, "template.add"@, ia) && first_cookie_template(
                    nv,
                    "template.sub"@,
                    ib,
                ) implies ia == add_at as int && ib == sub_at as int by {
                if ia < add_at as int {
                    assert(is_cookie_template_name(nv[ia], "template.add"@));
                }
                if ib < sub_at as int {
                    assert(is_cookie_template_name(nv[ib], "template.sub"@));
                }
            }
        }
        Ok(
            Template {
                add_name: names[add_at].clone(),
                sub_name: names[sub_at].clone(),
                version,
                separator: add_sep.to_owned(),
                extension: add_ext.to_owned(),
                add: add_body,
                sub: sub_body,
            },
        )
    }
}

} // verus!
