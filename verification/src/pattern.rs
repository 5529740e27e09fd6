//! The file name grammar for templates and motions, and the regular
//! expression calls that decide membership. The grammar itself is stated as
//! spec functions; the deciding calls go through the regex crate, exactly as
//! the discovery logic uses them.

use vstd::prelude::*;
use crate::text::ascii_only;
use crate::text::is_digit_char;

verus! {

/// The tail a template or motion file name may carry after its fixed part:
/// either nothing, or a dot followed by at least one character, none of
/// them a line break.
pub open spec fn is_extension_tail(rest: Seq<char>) -> bool {
    ||| rest.len() == 0
    ||| (rest.len() >= 2 && rest[0] == '.' && forall|i: int| 1 <= i < rest.len() ==> rest[i] != '\n'
    )
}

/// True when `name` is the add template's file name: `template.add`
/// followed by an extension tail.
pub open spec fn is_template_add_name(name: Seq<char>) -> bool {
    &&& name.len() >= 12
    &&& name.take(12) == "template.add"@
    &&& is_extension_tail(name.skip(12))
}

/// True when `name` is the sub template's file name: `template.sub`
/// followed by an extension tail.
pub open spec fn is_template_sub_name(name: Seq<char>) -> bool {
    &&& name.len() >= 12
    &&& name.take(12) == "template.sub"@
    &&& is_extension_tail(name.skip(12))
}

/// True when `name` is a motion file name for the given operation (`add`@
/// or `sub`@) and extension: a stem of six digits, a dash and at least one
/// more character, none of them a line break, followed by a dot, the
/// operation, and the extension.
pub open spec fn is_motion_file_name(name: Seq<char>, op: Seq<char>, ext: Seq<char>) -> bool {
    let stem_len = name.len() - 1 - op.len() - ext.len();
    &&& stem_len >= 8
    &&& name.skip(stem_len) == seq!['.'] + op + ext
    &&& (forall|i: int| 0 <= i < 6 ==> is_digit_char(#[trigger] name[i]))
    &&& name[6] == '-'
    &&& (forall|i: int| 7 <= i < stem_len ==> name[i] != '\n')
}

/// The stem of a motion file name: everything before the dot, the
/// operation, and the extension. Motions pair up by stem, and the stem is
/// the motion's name.
pub open spec fn motion_stem(name: Seq<char>, op: Seq<char>, ext: Seq<char>) -> Seq<char> {
    name.take(name.len() - 1 - op.len() - ext.len())
}

/// Relies on regex::Regex::is_match with the pattern
/// `^template\.add($|\..+$)`: anchored on both sides, `.` excludes line
/// breaks, which is exactly `is_template_add_name`.
#[verifier::external_body]
pub(crate) fn template_add_is_match(name: &str) -> (r: bool)
    ensures
        r == is_template_add_name(name@),
{
    regex::Regex::new(r"^template\.add($|\..+$)").unwrap().is_match(name)
}

/// Relies on regex::Regex::is_match with the pattern
/// `^template\.sub($|\..+$)`, as `template_add_is_match` does.
#[verifier::external_body]
pub(crate) fn template_sub_is_match(name: &str) -> (r: bool)
    ensures
        r == is_template_sub_name(name@),
{
    regex::Regex::new(r"^template\.sub($|\..+$)").unwrap().is_match(name)
}

/// Relies on regex::Regex::is_match with the pattern `^(\d{6}-.+)\.add`
/// followed by the extension under regex::escape and `$`. For a name of
/// ASCII characters this is exactly `is_motion_file_name`; the guard is
/// there because `\d` also matches digits from outside ASCII. The length
/// bound keeps the built pattern far below the compiler's size limit, so
/// compiling cannot fail.
#[verifier::external_body]
pub(crate) fn motion_add_is_match(name: &str, extension: &str) -> (r: bool)
    requires
        extension@.len() <= 4096,
    ensures
        ascii_only(name@) ==> r == is_motion_file_name(name@, "add"@, extension@),
{
    let pattern = format!(r"^(\d{{6}}-.+)\.add{}$", regex::escape(extension));
    regex::Regex::new(&pattern).unwrap().is_match(name)
}

/// Relies on regex::Regex::is_match with the pattern `^(\d{6}-.+)\.sub`
/// followed by the escaped extension and `$`, as `motion_add_is_match`
/// does.
#[verifier::external_body]
pub(crate) fn motion_sub_is_match(name: &str, extension: &str) -> (r: bool)
    requires
        extension@.len() <= 4096,
    ensures
        ascii_only(name@) ==> r == is_motion_file_name(name@, "sub"@, extension@),
{
    let pattern = format!(r"^(\d{{6}}-.+)\.sub{}$", regex::escape(extension));
    regex::Regex::new(&pattern).unwrap().is_match(name)
}

} // verus!
