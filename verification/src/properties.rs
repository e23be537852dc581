//! Property mappings and their textual form.

use vstd::prelude::*;

use crate::error::JarError;
use crate::string_map::ascending;
use crate::string_map::lemma_put;
use crate::string_map::put;
use crate::string_map::StringMap;
use java_properties::PropertiesError;
use java_properties::PropertiesIter;
use java_properties::PropertiesWriter;

verus! {

/// The key/value lines that properties text holds, in the order of the text
/// and with repetitions, or `None` where the bytes are not valid properties
/// text.
pub uninterp spec fn decoded_lines(text: Seq<u8>) -> Option<Seq<(Seq<char>, Seq<char>)>>;

/// The line of properties text that stores `value` under `key`, or `None`
/// where the pair cannot be encoded.
pub uninterp spec fn encoded_line(key: Seq<char>, value: Seq<char>) -> Option<Seq<u8>>;

/// The mapping that a sequence of key/value lines stands for: a later line
/// replaces the value of an earlier line with the same key.
pub open spec fn mapping_of(lines: Seq<(Seq<char>, Seq<char>)>) -> Seq<(Seq<char>, Seq<char>)>
    decreases lines.len(),
{
    if lines.len() == 0 {
        Seq::empty()
    } else {
        put(mapping_of(lines.drop_last()), lines.last().0, lines.last().1)
    }
}

/// The keys of the mapping of a sequence of lines ascend.
pub proof fn lemma_mapping_ascends(lines: Seq<(Seq<char>, Seq<char>)>)
    ensures
        ascending(mapping_of(lines)),
    decreases lines.len(),
{
    if lines.len() > 0 {
        lemma_mapping_ascends(lines.drop_last());
        lemma_put(mapping_of(lines.drop_last()), lines.last().0, lines.last().1);
    }
}

/// The mapping that properties text stands for, if it is valid.
pub open spec fn decoded(text: Seq<u8>) -> Option<Seq<(Seq<char>, Seq<char>)>> {
    match decoded_lines(text) {
        Some(lines) => Some(mapping_of(lines)),
        None => None,
    }
}

/// Whether every pair of `mapping` can be encoded.
pub open spec fn encodable(mapping: Seq<(Seq<char>, Seq<char>)>) -> bool {
    forall|i: int|
        0 <= i < mapping.len() ==> encoded_line((#[trigger] mapping[i]).0, mapping[i].1) is Some
}

/// The properties text of `mapping`: the lines of its pairs, in order.
pub open spec fn encoded(mapping: Seq<(Seq<char>, Seq<char>)>) -> Seq<u8>
    decreases mapping.len(),
{
    if mapping.len() == 0 {
        Seq::empty()
    } else {
        encoded(mapping.drop_last()) + encoded_line(mapping.last().0, mapping.last().1)->Some_0
    }
}

/// Calls `PropertiesIter::read_into` on the text, storing each key/value line
/// in a mapping as it comes. The outcome is a function of the text: it fails
/// exactly where the text is not valid, and else gives the mapping of the
/// lines of the text.
#[verifier::external_body]
fn read_properties(text: &[u8]) -> (result: Result<StringMap<String>, PropertiesError>)
    ensures
        result is Ok <==> decoded_lines(text@) is Some,
        result matches Ok(mapping) ==> mapping@ == mapping_of(decoded_lines(text@)->Some_0),
{
    let mut mapping = StringMap::new();
    PropertiesIter::new(text).read_into(
        |key, value|
            {
                mapping.insert(key, value);
            },
    )?;
    Ok(mapping)
}

/// Calls `PropertiesWriter::write` for one pair on an empty buffer, then
/// `PropertiesWriter::finish`. The outcome is a function of the pair: the
/// line that stores it, or an error where it cannot be encoded.
#[verifier::external_body]
fn write_line(key: &str, value: &str) -> (result: Result<Vec<u8>, PropertiesError>)
    ensures
        result is Ok <==> encoded_line(key@, value@) is Some,
        result matches Ok(line) ==> line@ == encoded_line(key@, value@)->Some_0,
{
    let mut line = Vec::new();
    let mut writer = PropertiesWriter::new(&mut line);
    writer.write(key, value)?;
    writer.finish()?;
    Ok(line)
}

/// Decodes properties text into a mapping. Fails exactly where the text is
/// not valid properties text.
pub fn decode(text: &[u8]) -> (result: Result<StringMap<String>, JarError>)
    ensures
        result matches Ok(mapping) ==> decoded(text@) == Some(mapping@),
        result matches Err(error) ==> decoded(text@) is None && error is JavaProperties,
{
    match read_properties(text) {
        Ok(mapping) => Ok(mapping),
        Err(error) => Err(JarError::JavaProperties(error)),
    }
}

/// Encodes a mapping as properties text, one line per pair in the order of
/// the mapping. Fails exactly where some pair cannot be encoded.
pub fn encode(mapping: &StringMap<String>) -> (result: Result<Vec<u8>, JarError>)
    ensures
        result matches Ok(text) ==> encodable(mapping@) && text@ == encoded(mapping@),
        result matches Err(error) ==> !encodable(mapping@) && error is JavaProperties,
{
    let mut text: Vec<u8> = Vec::new();
    let mut index: usize = 0;
    while index < mapping.len()
        invariant
            index <= mapping@.len(),
            encodable(mapping@.take(index as int)),
            text@ == encoded(mapping@.take(index as int)),
        decreases mapping@.len() - index,
    {
        let key = mapping.key_at(index);
        let value = mapping.value_at(index);
        match write_line(key.as_str(), value.as_str()) {
            Ok(mut line) => {
                proof {
                    let before = mapping@.take(index as int);
                    let after = mapping@.take(index + 1);
                    assert(after.drop_last() =~= before);
                    assert(after.last() == mapping@[index as int]);
                    assert forall|i: int| 0 <= i < after.len() implies encoded_line(
                        (#[trigger] after[i]).0,
                        after[i].1,
                    ) is Some by {
                        if i < index {
                            assert(after[i] == before[i]);
                        }
                    }
                }
                text.append(&mut line);
            },
            Err(error) => {
                assert(encoded_line(mapping@[index as int].0, mapping@[index as int].1) is None);
                return Err(JarError::JavaProperties(error));
            },
        }
        index += 1;
    }
    assert(mapping@.take(index as int) =~= mapping@);
    Ok(text)
}

} // verus!
