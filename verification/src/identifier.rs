//! Identifiers for the copied files, and the file names built from them.

use vstd::prelude::*;
use vstd::string::StringExecFns;
use crate::path::{
    extension, file_name, is_plain, join, lemma_file_name_of_join, lemma_last_index_of_unique,
    lemma_relative_to_join, relative_to,
};

verus! {

/// A lower-case hexadecimal digit.
pub open spec fn is_hex_digit(c: char) -> bool {
    ('0' <= c && c <= '9') || ('a' <= c && c <= 'f')
}

/// An identifier is 32 lower-case hexadecimal digits.
pub open spec fn is_identifier(id: Seq<char>) -> bool {
    id.len() == 32 && forall|i: int| 0 <= i < id.len() ==> is_hex_digit(#[trigger] id[i])
}

/// The name of the copy that gets the identifier `id`: the identifier, a
/// `.`, and the extension that was asked for.
pub open spec fn generated_name(id: Seq<char>, extension: Seq<char>) -> Seq<char> {
    id + seq!['.'] + extension
}

/// Two identifiers of one length that give one name are one identifier.
pub proof fn lemma_generated_name_injective(a: Seq<char>, b: Seq<char>, extension: Seq<char>)
    requires
        a.len() == b.len(),
        generated_name(a, extension) == generated_name(b, extension),
    ensures
        a == b,
{
    let x = generated_name(a, extension);
    let y = generated_name(b, extension);
    assert forall|i: int| 0 <= i < a.len() implies a[i] == b[i] by {
        assert(x[i] == a[i]);
        assert(y[i] == b[i]);
    }
    assert(a =~= b);
}

/// The copy that gets an identifier and a plain extension lies directly in
/// the output directory, is named by the generated name, and has that
/// extension.
pub proof fn lemma_generated_destination(output_dir: Seq<char>, id: Seq<char>, desired_extension: Seq<char>)
    requires
        is_identifier(id),
        is_plain(desired_extension),
    ensures
        file_name(join(output_dir, generated_name(id, desired_extension))) == generated_name(
            id,
            desired_extension,
        ),
        extension(join(output_dir, generated_name(id, desired_extension))) == Some(
            desired_extension,
        ),
        relative_to(join(output_dir, generated_name(id, desired_extension)), output_dir) == Some(
            generated_name(id, desired_extension),
        ),
{
    let name = generated_name(id, desired_extension);
    assert forall|i: int| 0 <= i < name.len() implies name[i] != '/' by {
        if i < 32 {
            assert(name[i] == id[i]);
            assert(is_hex_digit(id[i]));
        } else if i > 32 {
            assert(name[i] == desired_extension[i - 33]);
        }
    }
    assert(name[0] != '/');
    lemma_relative_to_join(output_dir, name);
    lemma_file_name_of_join(output_dir, name);
    assert forall|j: int| 32 < j < name.len() implies name[j] != '.' by {
        assert(name[j] == desired_extension[j - 33]);
    }
    lemma_last_index_of_unique(name, '.', 32);
    assert(name.subrange(33, name.len() as int) =~= desired_extension);
}

/// A fresh random identifier.
///
/// Calls `uuid::Uuid::new_v4`, which draws 16 random bytes from the operating
/// system, and formats the result with `to_simple`: the 16 bytes as 32
/// lower-case hexadecimal digits without hyphens. That shape is all the
/// contract claims: nothing is promised about which identifier comes back,
/// nor that two calls differ. `new_v4` panics if the operating system cannot
/// supply random bytes.
#[verifier::external_body]
pub(crate) fn new_identifier() -> (id: String)
    ensures
        is_identifier(id@),
{
    uuid::Uuid::new_v4().to_simple().to_string()
}

/// The file name for the identifier `id`.
pub fn generated_file_name(id: &str, extension: &str) -> (name: String)
    ensures
        name@ == generated_name(id@, extension@),
{
    proof {
        reveal_strlit(".");
        assert("."@ == seq!['.']);
    }
    let mut name = id.to_owned();
    name.append(".");
    name.append(extension);
    name
}

} // verus!
