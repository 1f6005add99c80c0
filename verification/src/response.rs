//! Reading what the generation provider answers: the text, the images and
//! how the completion ended; and hiding image data in what is kept of a
//! request.

use crate::error::AppError;
use crate::json::{first_of, get_either, Json};
use crate::models::CompletionMetadata;
use crate::text::{is_blank, starts_with, text_starts_with, trim, trimmed};
use vstd::prelude::*;
use vstd::string::StringExecFns;

verus! {

/// The texts of a list of strings.
pub open spec fn views(list: Seq<String>) -> Seq<Seq<char>> {
    Seq::new(list.len(), |i: int| list[i]@)
}

/// The lines, with `separator` between each two of them.
pub open spec fn joined(lines: Seq<Seq<char>>, separator: Seq<char>) -> Seq<char>
    decreases lines.len(),
{
    if lines.len() == 0 {
        Seq::<char>::empty()
    } else if lines.len() == 1 {
        lines[0]
    } else {
        joined(lines.drop_last(), separator) + separator + lines.last()
    }
}

/// The first choice of a response: what `/choices/0` leads to.
pub open spec fn first_choice(response: Json) -> Option<Json> {
    match response.member("choices"@) {
        Some(choices) => choices.first(),
        None => None,
    }
}

/// The message of the first choice: what `/choices/0/message` leads to.
pub open spec fn first_message(response: Json) -> Option<Json> {
    match first_choice(response) {
        Some(choice) => choice.member("message"@),
        None => None,
    }
}

/// The text member of each part that has one, in order.
pub open spec fn part_texts(parts: Seq<Json>) -> Seq<Seq<char>>
    decreases parts.len(),
{
    if parts.len() == 0 {
        Seq::<Seq<char>>::empty()
    } else {
        let before = part_texts(parts.drop_last());
        match parts.last().member("text"@) {
            Some(Json::Text(text)) => before.push(text@),
            _ => before,
        }
    }
}

/// A text where it holds more than whitespace.
pub open spec fn unless_blank(text: Seq<char>) -> Option<Seq<char>> {
    if is_blank(text) {
        None
    } else {
        Some(text)
    }
}

/// The text of a response: the content of the message where it is a text,
/// or the texts of its parts, one on each line, where it is a list; as long
/// as that holds more than whitespace.
pub open spec fn response_text(response: Json) -> Option<Seq<char>> {
    match first_message(response) {
        Some(message) => match message.member("content"@) {
            Some(Json::Text(text)) => unless_blank(text@),
            Some(Json::Array(parts)) => unless_blank(joined(part_texts(parts@), "\n"@)),
            _ => None,
        },
        None => None,
    }
}

fn first_choice_of<'a>(response: &'a Json) -> (found: Option<&'a Json>)
    ensures
        match found {
            Some(choice) => first_choice(*response) == Some(*choice),
            None => first_choice(*response) is None,
        },
{
    match response.get("choices") {
        Some(choices) => choices.get_first(),
        None => None,
    }
}

fn first_message_of<'a>(response: &'a Json) -> (found: Option<&'a Json>)
    ensures
        match found {
            Some(message) => first_message(*response) == Some(*message),
            None => first_message(*response) is None,
        },
{
    match first_choice_of(response) {
        Some(choice) => choice.get("message"),
        None => None,
    }
}

fn keep_unless_blank(text: String) -> (kept: Option<String>)
    ensures
        match kept {
            Some(held) => unless_blank(text@) == Some(held@),
            None => unless_blank(text@) is None,
        },
{
    if trim(text.as_str()).is_empty() {
        None
    } else {
        Some(text)
    }
}

fn merge_part_texts(parts: &Vec<Json>) -> (merged: String)
    ensures
        merged@ == joined(part_texts(parts@), "\n"@),
{
    let mut merged = String::new();
    let mut count: usize = 0;
    let mut i: usize = 0;
    proof {
        assert(parts@.take(0) =~= Seq::<Json>::empty());
    }
    while i < parts.len()
        invariant
            i <= parts@.len(),
            count == part_texts(parts@.take(i as int)).len(),
            count <= i,
            merged@ == joined(part_texts(parts@.take(i as int)), "\n"@),
        decreases parts@.len() - i,
    {
        proof {
            assert(parts@.take(i + 1).drop_last() =~= parts@.take(i as int));
            assert(parts@.take(i + 1).last() == parts@[i as int]);
        }
        let ghost before = part_texts(parts@.take(i as int));
        match parts[i].get("text") {
            Some(Json::Text(text)) => {
                if count > 0 {
                    merged.append("\n");
                }
                merged.append(text.as_str());
                count = count + 1;
                proof {
                    let after = before.push(text@);
                    assert(after.drop_last() =~= before);
                    assert(after.last() == text@);
                    if before.len() == 0 {
                        assert(Seq::<char>::empty() + text@ =~= text@);
                    }
                }
            },
            _ => {},
        }
        i = i + 1;
    }
    proof {
        assert(parts@.take(parts@.len() as int) =~= parts@);
    }
    merged
}

/// The text of a response.
pub fn extract_text(response: &Json) -> (text: Option<String>)
    ensures
        match text {
            Some(found) => response_text(*response) == Some(found@),
            None => response_text(*response) is None,
        },
{
    let message = match first_message_of(response) {
        Some(message) => message,
        None => {
            return None;
        },
    };
    match message.get("content") {
        Some(Json::Text(text)) => keep_unless_blank(text.clone()),
        Some(Json::Array(parts)) => keep_unless_blank(merge_part_texts(parts)),
        _ => None,
    }
}

/// Whether a text is the data URL of an image, going by how it begins.
pub open spec fn is_image_url(text: Seq<char>) -> bool {
    starts_with(text, "data:image"@)
}

/// The one text that a value gives where it is the data URL of an image.
pub open spec fn url_in(value: Option<Json>) -> Seq<Seq<char>> {
    match value {
        Some(Json::Text(text)) => if is_image_url(text@) {
            seq![text@]
        } else {
            Seq::<Seq<char>>::empty()
        },
        _ => Seq::<Seq<char>>::empty(),
    }
}

/// The data URL under `image_url.url` or `imageUrl.url` of a value.
pub open spec fn nested_url_in(value: Json) -> Seq<Seq<char>> {
    match first_of(value.member("image_url"@), value.member("imageUrl"@)) {
        Some(holder) => url_in(holder.member("url"@)),
        None => Seq::<Seq<char>>::empty(),
    }
}

/// The data URLs that one entry of `images` gives: itself where it is a
/// text; else what stands under `url` or `data`, and then what stands under
/// `image_url.url` or `imageUrl.url`.
pub open spec fn urls_of_image(image: Json) -> Seq<Seq<char>> {
    match image {
        Json::Text(_) => url_in(Some(image)),
        Json::Object(_) => url_in(first_of(image.member("url"@), image.member("data"@)))
            + nested_url_in(image),
        _ => Seq::<Seq<char>>::empty(),
    }
}

/// The data URLs that one part of the content gives: what stands under
/// `url` or `image_url`, and then what stands under `image_url.url` or
/// `imageUrl.url`.
pub open spec fn urls_of_part(part: Json) -> Seq<Seq<char>> {
    url_in(first_of(part.member("url"@), part.member("image_url"@))) + nested_url_in(part)
}

/// The data URLs of all entries of `images`, in order.
pub open spec fn urls_of_images(images: Seq<Json>) -> Seq<Seq<char>>
    decreases images.len(),
{
    if images.len() == 0 {
        Seq::<Seq<char>>::empty()
    } else {
        urls_of_images(images.drop_last()) + urls_of_image(images.last())
    }
}

/// The data URLs of all parts of the content, in order.
pub open spec fn urls_of_parts(parts: Seq<Json>) -> Seq<Seq<char>>
    decreases parts.len(),
{
    if parts.len() == 0 {
        Seq::<Seq<char>>::empty()
    } else {
        urls_of_parts(parts.drop_last()) + urls_of_part(parts.last())
    }
}

/// The images of a response, as data URLs: those of the list `images` of
/// the message; where that gives none, those of the parts of its content.
pub open spec fn response_image_urls(response: Json) -> Seq<Seq<char>> {
    match first_message(response) {
        Some(message) => {
            let listed = match message.member("images"@) {
                Some(Json::Array(images)) => urls_of_images(images@),
                _ => Seq::<Seq<char>>::empty(),
            };
            if listed.len() > 0 {
                listed
            } else {
                match message.member("content"@) {
                    Some(Json::Array(parts)) => urls_of_parts(parts@),
                    _ => Seq::<Seq<char>>::empty(),
                }
            }
        },
        None => Seq::<Seq<char>>::empty(),
    }
}

fn push_url(images: &mut Vec<String>, value: Option<&Json>)
    ensures
        views(final(images)@) == views(old(images)@) + url_in(
            match value {
                Some(json) => Some(*json),
                None => None,
            },
        ),
{
    match value {
        Some(Json::Text(text)) => {
            if text_starts_with(text.as_str(), "data:image") {
                images.push(text.clone());
                proof {
                    assert(views(images@) =~= views(old(images)@) + seq![text@]);
                }
                return ;
            }
        },
        _ => {},
    }
    proof {
        assert(views(images@) =~= views(old(images)@) + Seq::<Seq<char>>::empty());
    }
}

fn push_nested_url(images: &mut Vec<String>, value: &Json)
    ensures
        views(final(images)@) == views(old(images)@) + nested_url_in(*value),
{
    match get_either(value, "image_url", "imageUrl") {
        Some(holder) => push_url(images, holder.get("url")),
        None => {
            proof {
                assert(views(images@) =~= views(old(images)@) + Seq::<Seq<char>>::empty());
            }
        },
    }
}

fn push_urls_of_image(images: &mut Vec<String>, image: &Json)
    ensures
        views(final(images)@) == views(old(images)@) + urls_of_image(*image),
{
    match image {
        Json::Text(_) => push_url(images, Some(image)),
        Json::Object(_) => {
            push_url(images, get_either(image, "url", "data"));
            let ghost middle = views(images@);
            push_nested_url(images, image);
            proof {
                assert(views(images@) =~= views(old(images)@) + urls_of_image(*image));
            }
        },
        _ => {
            proof {
                assert(views(images@) =~= views(old(images)@) + Seq::<Seq<char>>::empty());
            }
        },
    }
}

fn push_urls_of_part(images: &mut Vec<String>, part: &Json)
    ensures
        views(final(images)@) == views(old(images)@) + urls_of_part(*part),
{
    push_url(images, get_either(part, "url", "image_url"));
    push_nested_url(images, part);
    proof {
        assert(views(images@) =~= views(old(images)@) + urls_of_part(*part));
    }
}

/// The images of a response, as data URLs.
pub fn extract_image_data_urls(response: &Json) -> (images: Vec<String>)
    ensures
        views(images@) == response_image_urls(*response),
{
    let mut images: Vec<String> = Vec::new();
    proof {
        assert(views(images@) =~= Seq::<Seq<char>>::empty());
    }
    let message = match first_message_of(response) {
        Some(message) => message,
        None => {
            return images;
        },
    };
    match message.get("images") {
        Some(Json::Array(listed)) => {
            let mut i: usize = 0;
            proof {
                assert(listed@.take(0) =~= Seq::<Json>::empty());
            }
            while i < listed.len()
                invariant
                    i <= listed@.len(),
                    views(images@) == urls_of_images(listed@.take(i as int)),
                decreases listed@.len() - i,
            {
                proof {
                    assert(listed@.take(i + 1).drop_last() =~= listed@.take(i as int));
                    assert(listed@.take(i + 1).last() == listed@[i as int]);
                }
                push_urls_of_image(&mut images, &listed[i]);
                i = i + 1;
            }
            proof {
                assert(listed@.take(listed@.len() as int) =~= listed@);
            }
        },
        _ => {},
    }
    if images.len() == 0 {
        match message.get("content") {
            Some(Json::Array(parts)) => {
                let mut i: usize = 0;
                proof {
                    assert(parts@.take(0) =~= Seq::<Json>::empty());
                }
                while i < parts.len()
                    invariant
                        i <= parts@.len(),
                        views(images@) == urls_of_parts(parts@.take(i as int)),
                    decreases parts@.len() - i,
                {
                    proof {
                        assert(parts@.take(i + 1).drop_last() =~= parts@.take(i as int));
                        assert(parts@.take(i + 1).last() == parts@[i as int]);
                    }
                    push_urls_of_part(&mut images, &parts[i]);
                    i = i + 1;
                }
                proof {
                    assert(parts@.take(parts@.len() as int) =~= parts@);
                }
            },
            _ => {},
        }
    }
    images
}

/// The text that a field of the message gives: nothing for `null`; the
/// trimmed text where it is a text that holds more than whitespace; for
/// every other value, the value written out as indented JSON, which the
/// caller hands in as `pretty`.
pub open spec fn field_text(value: Json, pretty: Seq<char>) -> Option<Seq<char>> {
    match value {
        Json::Null => None,
        Json::Text(text) => if is_blank(text@) {
            None
        } else {
            Some(trimmed(text@))
        },
        _ => Some(pretty),
    }
}

/// The text that a field of the message gives. `pretty` is the value
/// written out as indented JSON.
pub fn to_string_value(value: &Json, pretty: &str) -> (text: Option<String>)
    ensures
        match text {
            Some(found) => field_text(*value, pretty@) == Some(found@),
            None => field_text(*value, pretty@) is None,
        },
{
    match value {
        Json::Null => None,
        Json::Text(text) => {
            let kept = trim(text.as_str());
            if kept.is_empty() {
                None
            } else {
                Some(String::from_str(kept))
            }
        },
        _ => Some(String::from_str(pretty)),
    }
}

/// The trimmed text under `text` of an object, where it holds more than
/// whitespace.
pub open spec fn own_snippet(value: Json) -> Seq<Seq<char>> {
    match value.member("text"@) {
        Some(Json::Text(text)) => if is_blank(text@) {
            Seq::<Seq<char>>::empty()
        } else {
            seq![trimmed(text@)]
        },
        _ => Seq::<Seq<char>>::empty(),
    }
}

/// The snippets of reasoning text inside a value: for an object its own
/// text and then the snippets of its other members, for a list the
/// snippets of its items, each in order.
pub open spec fn snippets(value: Json) -> Seq<Seq<char>>
    decreases value,
{
    match value {
        Json::Array(items) => snippets_of_items(items@),
        Json::Object(members) => own_snippet(value) + snippets_of_members(members@),
        _ => Seq::<Seq<char>>::empty(),
    }
}

/// The snippets of all items of a list, in order.
pub open spec fn snippets_of_items(items: Seq<Json>) -> Seq<Seq<char>>
    decreases items,
{
    if items.len() == 0 {
        Seq::<Seq<char>>::empty()
    } else {
        snippets_of_items(items.drop_last()) + snippets(items.last())
    }
}

/// The snippets of all members of an object but `text`, in order.
pub open spec fn snippets_of_members(members: Seq<(String, Json)>) -> Seq<Seq<char>>
    decreases members,
{
    if members.len() == 0 {
        Seq::<Seq<char>>::empty()
    } else {
        snippets_of_members(members.drop_last()) + if members.last().0@ == "text"@ {
            Seq::<Seq<char>>::empty()
        } else {
            snippets(members.last().1)
        }
    }
}

/// Gathers the snippets of reasoning text inside a value.
pub fn collect_reasoning_text_snippets(value: &Json, snippets_out: &mut Vec<String>)
    ensures
        views(final(snippets_out)@) == views(old(snippets_out)@) + snippets(*value),
    decreases value,
{
    match value {
        Json::Array(items) => {
            let mut i: usize = 0;
            proof {
                assert(items@.take(0) =~= Seq::<Json>::empty());
                assert(views(snippets_out@) =~= views(old(snippets_out)@) + Seq::<
                    Seq<char>,
                >::empty());
            }
            while i < items.len()
                invariant
                    i <= items@.len(),
                    *value == Json::Array(*items),
                    decreases_to!(*value => *items),
                    views(snippets_out@) == views(old(snippets_out)@) + snippets_of_items(
                        items@.take(i as int),
                    ),
                decreases items@.len() - i,
            {
                proof {
                    assert(items@.take(i + 1).drop_last() =~= items@.take(i as int));
                    assert(items@.take(i + 1).last() == items@[i as int]);
                }
                proof {
                    vstd::std_specs::vec::axiom_vec_index_decreases(*items, i as int);
                }
                collect_reasoning_text_snippets(&items[i], snippets_out);
                proof {
                    assert(views(snippets_out@) =~= views(old(snippets_out)@) + snippets_of_items(
                        items@.take(i + 1),
                    ));
                }
                i = i + 1;
            }
            proof {
                assert(items@.take(items@.len() as int) =~= items@);
            }
        },
        Json::Object(members) => {
            match value.get("text") {
                Some(Json::Text(text)) => {
                    let kept = trim(text.as_str());
                    if !kept.is_empty() {
                        snippets_out.push(String::from_str(kept));
                    }
                },
                _ => {},
            }
            proof {
                assert(views(snippets_out@) =~= views(old(snippets_out)@) + own_snippet(*value));
                assert(members@.take(0) =~= Seq::<(String, Json)>::empty());
                assert(views(snippets_out@) =~= views(old(snippets_out)@) + own_snippet(*value)
                    + Seq::<Seq<char>>::empty());
            }
            let mut i: usize = 0;
            while i < members.len()
                invariant
                    i <= members@.len(),
                    *value == Json::Object(*members),
                    decreases_to!(*value => *members),
                    views(snippets_out@) == views(old(snippets_out)@) + own_snippet(*value)
                        + snippets_of_members(members@.take(i as int)),
                decreases members@.len() - i,
            {
                proof {
                    assert(members@.take(i + 1).drop_last() =~= members@.take(i as int));
                    assert(members@.take(i + 1).last() == members@[i as int]);
                }
                if !crate::text::same_text(members[i].0.as_str(), "text") {
                    proof {
                        vstd::std_specs::vec::axiom_vec_index_decreases(*members, i as int);
                    }
                    collect_reasoning_text_snippets(&members[i].1, snippets_out);
                }
                proof {
                    assert(views(snippets_out@) =~= views(old(snippets_out)@) + own_snippet(*value)
                        + snippets_of_members(members@.take(i + 1)));
                }
                i = i + 1;
            }
            proof {
                assert(members@.take(members@.len() as int) =~= members@);
                assert(views(snippets_out@) =~= views(old(snippets_out)@) + (own_snippet(*value)
                    + snippets_of_members(members@)));
            }
        },
        _ => {
            proof {
                assert(views(snippets_out@) =~= views(old(snippets_out)@) + Seq::<
                    Seq<char>,
                >::empty());
            }
        },
    }
}

/// The text of the details of the reasoning: nothing for `null`; the
/// trimmed text where it is a text that holds more than whitespace; else
/// the snippets of reasoning text inside the value, with an empty line
/// between each two, where there are any.
pub open spec fn details_text(value: Json) -> Option<Seq<char>> {
    match value {
        Json::Null => None,
        Json::Text(text) => if is_blank(text@) {
            None
        } else {
            Some(trimmed(text@))
        },
        _ => if snippets(value).len() == 0 {
            None
        } else {
            Some(joined(snippets(value), "\n\n"@))
        },
    }
}

fn join_texts(lines: &Vec<String>, separator: &str) -> (text: String)
    ensures
        text@ == joined(views(lines@), separator@),
{
    let mut text = String::new();
    let mut i: usize = 0;
    proof {
        assert(views(lines@).take(0) =~= Seq::<Seq<char>>::empty());
    }
    while i < lines.len()
        invariant
            i <= lines@.len(),
            text@ == joined(views(lines@).take(i as int), separator@),
        decreases lines@.len() - i,
    {
        proof {
            let next = views(lines@).take(i + 1);
            assert(next.drop_last() =~= views(lines@).take(i as int));
            assert(next.last() == lines@[i as int]@);
            if i == 0 {
                assert(Seq::<char>::empty() + lines@[i as int]@ =~= lines@[i as int]@);
            }
        }
        if i > 0 {
            text.append(separator);
        }
        text.append(lines[i].as_str());
        i = i + 1;
    }
    proof {
        assert(views(lines@).take(lines@.len() as int) =~= views(lines@));
    }
    text
}

/// The text of the details of the reasoning.
pub fn extract_reasoning_details_text(value: &Json) -> (text: Option<String>)
    ensures
        match text {
            Some(found) => details_text(*value) == Some(found@),
            None => details_text(*value) is None,
        },
{
    match value {
        Json::Null => None,
        Json::Text(text) => {
            let kept = trim(text.as_str());
            if kept.is_empty() {
                None
            } else {
                Some(String::from_str(kept))
            }
        },
        _ => {
            let mut found: Vec<String> = Vec::new();
            proof {
                assert(views(found@) =~= Seq::<Seq<char>>::empty());
            }
            collect_reasoning_text_snippets(value, &mut found);
            proof {
                assert(views(found@) =~= snippets(*value));
            }
            if found.len() == 0 {
                None
            } else {
                Some(join_texts(&found, "\n\n"))
            }
        },
    }
}

/// The text of a value that may be missing.
pub open spec fn text_in(value: Option<Json>) -> Option<Seq<char>> {
    match value {
        Some(json) => json.text(),
        None => None,
    }
}

/// Why the first choice ended: the text at `/choices/0/finish_reason`.
pub open spec fn finish_reason_of(response: Json) -> Option<Seq<char>> {
    match first_choice(response) {
        Some(choice) => text_in(choice.member("finish_reason"@)),
        None => None,
    }
}

/// The refusal that the message of a response states.
pub open spec fn refusal_of(response: Json, pretty: Seq<char>) -> Option<Seq<char>> {
    match first_message(response) {
        Some(message) => match message.member("refusal"@) {
            Some(value) => field_text(value, pretty),
            None => None,
        },
        None => None,
    }
}

/// The reasoning that the message of a response states.
pub open spec fn reasoning_of(response: Json, pretty: Seq<char>) -> Option<Seq<char>> {
    match first_message(response) {
        Some(message) => match message.member("reasoning"@) {
            Some(value) => field_text(value, pretty),
            None => None,
        },
        None => None,
    }
}

/// The details of the reasoning that the message of a response states,
/// under `reasoning_details` or else `reasoningDetails`.
pub open spec fn reasoning_details_of(response: Json) -> Option<Seq<char>> {
    match first_message(response) {
        Some(message) => match first_of(
            message.member("reasoning_details"@),
            message.member("reasoningDetails"@),
        ) {
            Some(value) => details_text(value),
            None => None,
        },
        None => None,
    }
}

/// Whether `held` holds the text `text`, or neither holds anything.
pub open spec fn holds(held: Option<String>, text: Option<Seq<char>>) -> bool {
    match held {
        Some(found) => text == Some(found@),
        None => text is None,
    }
}

/// How the completion of a response ended, where the response says
/// anything about it. `refusal_pretty` and `reasoning_pretty` are the
/// refusal and the reasoning of the message written out as indented JSON.
pub fn extract_completion_metadata(
    response: &Json,
    refusal_pretty: &str,
    reasoning_pretty: &str,
) -> (metadata: Option<CompletionMetadata>)
    ensures
        match metadata {
            Some(found) => {
                &&& holds(found.finish_reason, finish_reason_of(*response))
                &&& holds(found.refusal, refusal_of(*response, refusal_pretty@))
                &&& holds(found.reasoning, reasoning_of(*response, reasoning_pretty@))
                &&& holds(found.reasoning_details, reasoning_details_of(*response))
            },
            None => {
                &&& finish_reason_of(*response) is None
                &&& refusal_of(*response, refusal_pretty@) is None
                &&& reasoning_of(*response, reasoning_pretty@) is None
                &&& reasoning_details_of(*response) is None
            },
        },
        metadata is None <==> finish_reason_of(*response) is None && refusal_of(
            *response,
            refusal_pretty@,
        ) is None && reasoning_of(*response, reasoning_pretty@) is None && reasoning_details_of(
            *response,
        ) is None,
{
    let finish_reason = match first_choice_of(response) {
        Some(choice) => match choice.get("finish_reason") {
            Some(Json::Text(text)) => Some(text.clone()),
            _ => None,
        },
        None => None,
    };
    let message = first_message_of(response);
    let refusal = match message {
        Some(found) => match found.get("refusal") {
            Some(value) => to_string_value(value, refusal_pretty),
            None => None,
        },
        None => None,
    };
    let reasoning = match message {
        Some(found) => match found.get("reasoning") {
            Some(value) => to_string_value(value, reasoning_pretty),
            None => None,
        },
        None => None,
    };
    let reasoning_details = match message {
        Some(found) => match get_either(found, "reasoning_details", "reasoningDetails") {
            Some(value) => extract_reasoning_details_text(value),
            None => None,
        },
        None => None,
    };
    if finish_reason.is_none() && refusal.is_none() && reasoning.is_none()
        && reasoning_details.is_none() {
        return None;
    }
    Some(CompletionMetadata { finish_reason, refusal, reasoning, reasoning_details })
}

/// The text that stands in place of the data URL of an image.
pub const OMITTED_IMAGE: &'static str = "[omitted image data URL]";

/// Whether `kept` is `given` with the data URL of every image replaced
/// by `OMITTED_IMAGE`, and all else as it was.
pub open spec fn is_sanitized(given: Json, kept: Json) -> bool
    decreases given,
{
    match given {
        Json::Null => kept == Json::Null,
        Json::Bool(b) => kept == Json::Bool(b),
        Json::Number(number) => match kept {
            Json::Number(same) => same@ == number@,
            _ => false,
        },
        Json::Text(text) => match kept {
            Json::Text(shown) => shown@ == if is_image_url(text@) {
                OMITTED_IMAGE@
            } else {
                text@
            },
            _ => false,
        },
        Json::Array(items) => match kept {
            Json::Array(shown) => are_sanitized(items@, shown@),
            _ => false,
        },
        Json::Object(members) => match kept {
            Json::Object(shown) => are_sanitized_members(members@, shown@),
            _ => false,
        },
    }
}

/// Whether each of `kept` is the item of `given` at its place, sanitized.
pub open spec fn are_sanitized(given: Seq<Json>, kept: Seq<Json>) -> bool
    decreases given,
{
    &&& given.len() == kept.len()
    &&& given.len() > 0 ==> {
        &&& is_sanitized(given.last(), kept.last())
        &&& are_sanitized(given.drop_last(), kept.drop_last())
    }
}

/// Whether each of `kept` is the member of `given` at its place, with
/// the same key and the value sanitized.
pub open spec fn are_sanitized_members(
    given: Seq<(String, Json)>,
    kept: Seq<(String, Json)>,
) -> bool
    decreases given,
{
    &&& given.len() == kept.len()
    &&& given.len() > 0 ==> {
        &&& given.last().0@ == kept.last().0@
        &&& is_sanitized(given.last().1, kept.last().1)
        &&& are_sanitized_members(given.drop_last(), kept.drop_last())
    }
}

/// A copy of a payload in which the data URL of every image is replaced by
/// `OMITTED_IMAGE`.
pub fn sanitize_payload(payload: &Json) -> (kept: Json)
    ensures
        is_sanitized(*payload, kept),
    decreases payload,
{
    match payload {
        Json::Null => Json::Null,
        Json::Bool(b) => Json::Bool(*b),
        Json::Number(number) => Json::Number(number.clone()),
        Json::Text(text) => {
            if text_starts_with(text.as_str(), "data:image") {
                Json::Text(String::from_str(OMITTED_IMAGE))
            } else {
                Json::Text(text.clone())
            }
        },
        Json::Array(items) => {
            let mut shown: Vec<Json> = Vec::new();
            let mut i: usize = 0;
            proof {
                assert(items@.take(0) =~= Seq::<Json>::empty());
            }
            while i < items.len()
                invariant
                    i <= items@.len(),
                    shown@.len() == i,
                    decreases_to!(*payload => *items),
                    are_sanitized(items@.take(i as int), shown@),
                decreases items@.len() - i,
            {
                proof {
                    vstd::std_specs::vec::axiom_vec_index_decreases(*items, i as int);
                }
                let next = sanitize_payload(&items[i]);
                let ghost before = shown@;
                shown.push(next);
                proof {
                    assert(items@.take(i + 1).drop_last() =~= items@.take(i as int));
                    assert(items@.take(i + 1).last() == items@[i as int]);
                    assert(shown@.drop_last() =~= before);
                }
                i = i + 1;
            }
            proof {
                assert(items@.take(items@.len() as int) =~= items@);
            }
            Json::Array(shown)
        },
        Json::Object(members) => {
            let mut shown: Vec<(String, Json)> = Vec::new();
            let mut i: usize = 0;
            proof {
                assert(members@.take(0) =~= Seq::<(String, Json)>::empty());
            }
            while i < members.len()
                invariant
                    i <= members@.len(),
                    shown@.len() == i,
                    decreases_to!(*payload => *members),
                    are_sanitized_members(members@.take(i as int), shown@),
                decreases members@.len() - i,
            {
                proof {
                    vstd::std_specs::vec::axiom_vec_index_decreases(*members, i as int);
                }
                let next = sanitize_payload(&members[i].1);
                let ghost before = shown@;
                shown.push((members[i].0.clone(), next));
                proof {
                    assert(members@.take(i + 1).drop_last() =~= members@.take(i as int));
                    assert(members@.take(i + 1).last() == members@[i as int]);
                    assert(shown@.drop_last() =~= before);
                }
                i = i + 1;
            }
            proof {
                assert(members@.take(members@.len() as int) =~= members@);
            }
            Json::Object(shown)
        },
    }
}

/// What the body of a failed request says went wrong: the text under
/// `error.message`, or under `error.metadata` where `error` has no
/// `message`; else the text under `message`; else the body as it stands.
/// `parsed` is the body read as JSON, where it is JSON.
pub open spec fn error_detail(parsed: Option<Json>, body: Seq<char>) -> Seq<char> {
    match parsed {
        Some(json) => {
            let from_error = match json.member("error"@) {
                Some(error) => text_in(first_of(error.member("message"@), error.member("metadata"@))),
                None => None,
            };
            match from_error {
                Some(text) => text,
                None => match text_in(json.member("message"@)) {
                    Some(text) => text,
                    None => body,
                },
            }
        },
        None => body,
    }
}

/// The text of the error for a failed request.
pub open spec fn http_error_text(status: Seq<char>, detail: Seq<char>) -> Seq<char> {
    "OpenRouter request failed ("@ + status + "): "@ + detail
}

/// The error for a request that the provider answered with a failure.
/// `status` is the status as it is written out, `body` the body of the
/// answer, and `parsed` the body read as JSON, where it is JSON.
pub fn parse_openrouter_http_error(status: &str, body: &str, parsed: Option<&Json>) -> (error:
    AppError)
    ensures
        crate::error::is_message(
            error,
            http_error_text(
                status@,
                error_detail(
                    match parsed {
                        Some(json) => Some(*json),
                        None => None,
                    },
                    body@,
                ),
            ),
        ),
{
    let from_error: Option<&str> = match parsed {
        Some(json) => match json.get("error") {
            Some(error) => match get_either(error, "message", "metadata") {
                Some(value) => value.as_str(),
                None => None,
            },
            None => None,
        },
        None => None,
    };
    let detail: &str = match from_error {
        Some(text) => text,
        None => match parsed {
            Some(json) => match json.get("message") {
                Some(value) => match value.as_str() {
                    Some(text) => text,
                    None => body,
                },
                None => body,
            },
            None => body,
        },
    };
    let mut text = String::from_str("OpenRouter request failed (");
    text.append(status);
    text.append("): ");
    text.append(detail);
    AppError::Message(text)
}

/// What is kept of an answer of the provider.
#[derive(Debug)]
pub struct OpenRouterResponse {
    pub model: String,
    pub text: Option<String>,
    pub image_data_urls: Vec<String>,
    pub sanitized_payload: Json,
    pub completion: Option<CompletionMetadata>,
}

/// The model that answered: the one that the response names, else the
/// configured one.
pub open spec fn model_of(response: Json, configured: Seq<char>) -> Seq<char> {
    match text_in(response.member("model"@)) {
        Some(name) => name,
        None => configured,
    }
}

/// Reads an answer of the provider. `sanitized_payload` is what is kept of
/// the request; `refusal_pretty` and `reasoning_pretty` are the refusal and
/// the reasoning of the message written out as indented JSON.
pub fn read_response(
    response: &Json,
    configured_model: &str,
    sanitized_payload: Json,
    refusal_pretty: &str,
    reasoning_pretty: &str,
) -> (read: OpenRouterResponse)
    ensures
        read.model@ == model_of(*response, configured_model@),
        holds(read.text, response_text(*response)),
        views(read.image_data_urls@) == response_image_urls(*response),
        read.sanitized_payload == sanitized_payload,
        match read.completion {
            Some(found) => {
                &&& holds(found.finish_reason, finish_reason_of(*response))
                &&& holds(found.refusal, refusal_of(*response, refusal_pretty@))
                &&& holds(found.reasoning, reasoning_of(*response, reasoning_pretty@))
                &&& holds(found.reasoning_details, reasoning_details_of(*response))
            },
            None => {
                &&& finish_reason_of(*response) is None
                &&& refusal_of(*response, refusal_pretty@) is None
                &&& reasoning_of(*response, reasoning_pretty@) is None
                &&& reasoning_details_of(*response) is None
            },
        },
{
    let image_data_urls = extract_image_data_urls(response);
    let text = extract_text(response);
    let completion = extract_completion_metadata(response, refusal_pretty, reasoning_pretty);
    let model = match response.get("model") {
        Some(value) => match value.as_str() {
            Some(name) => String::from_str(name),
            None => String::from_str(configured_model),
        },
        None => String::from_str(configured_model),
    };
    OpenRouterResponse { model, text, image_data_urls, sanitized_payload, completion }
}

} // verus!
