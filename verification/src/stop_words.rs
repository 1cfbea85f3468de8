//! The stop-word file: one buffer of words separated by commas.

use vstd::prelude::*;

use crate::model::{word_views, Token, WordList};
use crate::tokenizer::{lowercase_all, lowercase_of};

verus! {

/// The fields of a comma-separated buffer. A buffer without a comma is one
/// field; every comma ends one field and starts the next, so a buffer with
/// `k` commas has `k + 1` fields, some of which may be empty. Nothing is
/// trimmed.
pub open spec fn comma_fields(text: Seq<char>) -> Seq<Seq<char>>
    decreases text.len(),
{
    if text.len() == 0 {
        seq![Seq::empty()]
    } else {
        let fields = comma_fields(text.drop_last());
        if text.last() == ',' {
            fields.push(Seq::empty())
        } else {
            fields.update(fields.len() - 1, fields.last().push(text.last()))
        }
    }
}

/// The fields joined again, with one comma between neighbours.
pub open spec fn comma_joined(fields: Seq<Seq<char>>) -> Seq<char>
    decreases fields.len(),
{
    if fields.len() == 0 {
        Seq::empty()
    } else if fields.len() == 1 {
        fields[0]
    } else {
        comma_joined(fields.drop_last()).push(',') + fields.last()
    }
}

/// The stop words of a buffer: its comma-separated fields, each in lowercase.
pub open spec fn stop_words_of(text: Seq<char>) -> Seq<Token> {
    comma_fields(text).map_values(|field: Seq<char>| lowercase_of(field))
}

/// Splitting loses nothing: there is at least one field, no field holds a
/// comma, and the fields joined by commas give the buffer back.
pub proof fn lemma_comma_fields_rejoin(text: Seq<char>)
    ensures
        comma_fields(text).len() >= 1,
        forall|k: int|
            0 <= k < comma_fields(text).len() ==> !(#[trigger] comma_fields(text)[k]).contains(
                ',',
            ),
        comma_joined(comma_fields(text)) == text,
    decreases text.len(),
{
    if text.len() > 0 {
        let init = text.drop_last();
        let fields = comma_fields(init);
        let split = comma_fields(text);
        lemma_comma_fields_rejoin(init);
        assert(text =~= init.push(text.last()));
        if text.last() == ',' {
            assert(split.drop_last() =~= fields);
            assert(comma_joined(split) =~= text);
            assert forall|k: int| 0 <= k < split.len() implies !(#[trigger] split[k]).contains(
                ',',
            ) by {
                if k < fields.len() {
                    assert(split[k] == fields[k]);
                }
            }
        } else {
            let longer = fields.last().push(text.last());
            assert(split.drop_last() =~= fields.drop_last());
            if fields.len() > 1 {
                assert(comma_joined(split) =~= (comma_joined(fields.drop_last()).push(',')
                    + fields.last()).push(text.last()));
            }
            assert(comma_joined(split) =~= text);
            assert forall|k: int| 0 <= k < split.len() implies !(#[trigger] split[k]).contains(
                ',',
            ) by {
                if k < fields.len() - 1 {
                    assert(split[k] == fields[k]);
                } else {
                    assert(!fields[k].contains(','));
                    if longer.contains(',') {
                        let j = choose|j: int| 0 <= j < longer.len() && longer[j] == ',';
                        assert(fields[k][j] == ',');
                    }
                }
            }
        }
    } else {
        assert(comma_joined(comma_fields(text)) =~= text);
    }
}

/// Text without a comma, appended to a buffer, lengthens the last field.
pub proof fn lemma_comma_fields_append(text: Seq<char>, tail: Seq<char>)
    requires
        !tail.contains(','),
    ensures
        comma_fields(text).len() >= 1,
        comma_fields(text + tail) == comma_fields(text).update(
            comma_fields(text).len() - 1,
            comma_fields(text).last() + tail,
        ),
    decreases tail.len(),
{
    lemma_comma_fields_rejoin(text);
    let fields = comma_fields(text);
    if tail.len() == 0 {
        assert(text + tail =~= text);
        assert(fields.last() + tail =~= fields.last());
        assert(fields.update(fields.len() - 1, fields.last()) =~= fields);
    } else {
        let init = tail.drop_last();
        assert(tail[tail.len() - 1] == tail.last());
        assert(!init.contains(',')) by {
            if init.contains(',') {
                let j = choose|j: int| 0 <= j < init.len() && init[j] == ',';
                assert(tail[j] == ',');
            }
        }
        lemma_comma_fields_append(text, init);
        assert((text + tail).drop_last() =~= text + init);
        assert((fields.last() + init).push(tail.last()) =~= fields.last() + tail);
        assert(comma_fields(text + tail) =~= fields.update(
            fields.len() - 1,
            fields.last() + tail,
        ));
    }
}

/// Splitting is the only way to take a buffer apart at its commas: fields
/// without commas, joined and split again, come back unchanged.
pub proof fn lemma_comma_fields_of_joined(fields: Seq<Seq<char>>)
    requires
        fields.len() >= 1,
        forall|k: int| 0 <= k < fields.len() ==> !(#[trigger] fields[k]).contains(','),
    ensures
        comma_fields(comma_joined(fields)) == fields,
    decreases fields.len(),
{
    let empty = Seq::<char>::empty();
    if fields.len() == 1 {
        lemma_comma_fields_append(empty, fields[0]);
        assert(empty + fields[0] =~= fields[0]);
        assert(comma_fields(fields[0]) =~= fields);
    } else {
        let init = fields.drop_last();
        assert forall|k: int| 0 <= k < init.len() implies !(#[trigger] init[k]).contains(',') by {
            assert(init[k] == fields[k]);
        }
        lemma_comma_fields_of_joined(init);
        let head = comma_joined(init).push(',');
        assert(head.drop_last() =~= comma_joined(init));
        assert(comma_fields(head) == init.push(empty));
        lemma_comma_fields_append(head, fields.last());
        assert(empty + fields.last() =~= fields.last());
        assert(comma_fields(comma_joined(fields)) =~= fields);
    }
}

/// Calls `String::push`, which appends one character to the string.
#[verifier::external_body]
fn push_char(word: &mut String, c: char)
    ensures
        final(word)@ == old(word)@.push(c),
{
    word.push(c)
}

/// Splits a buffer at its commas.
pub fn split_commas(text: &str) -> (fields: WordList)
    ensures
        word_views(fields@) == comma_fields(text@),
{
    broadcast use vstd::string::group_string_axioms;

    let mut fields: WordList = Vec::new();
    let mut current = String::new();
    assert(text@.take(0) =~= Seq::<char>::empty());
    assert(word_views(fields@).push(current@) =~= comma_fields(text@.take(0)));
    for c in it: text.chars()
        invariant
            it.seq() == text@,
            word_views(fields@).push(current@) == comma_fields(text@.take(it.index())),
    {
        proof {
            assert(text@.take(it.index() + 1).drop_last() =~= text@.take(it.index()));
        }
        let ghost before = word_views(fields@).push(current@);
        if c == ',' {
            fields.push(current);
            current = String::new();
            assert(word_views(fields@).push(current@) =~= before.push(Seq::empty()));
        } else {
            push_char(&mut current, c);
            assert(word_views(fields@).push(current@) =~= before.update(
                before.len() - 1,
                before.last().push(c),
            ));
        }
    }
    assert(text@.take(text@.len() as int) =~= text@);
    fields.push(current);
    fields
}

/// Reads a stop-word buffer: the fields between its commas, each in
/// lowercase and otherwise as written. White space around a comma stays part
/// of the field, so a stop word written with it matches no word of a text.
pub fn stop_word_list(text: &str) -> (stop_words: WordList)
    ensures
        word_views(stop_words@) == stop_words_of(text@),
{
    let fields = split_commas(text);
    lowercase_all(&fields)
}

} // verus!
