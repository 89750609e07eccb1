//! The JSON objects the panel sends to the agent, to the server as request
//! bodies and to the child process as lines.

use vstd::prelude::*;

use crate::json::{
    carries, distinct_keys, json_parse, object_json, object_text, text_field, Field, FieldV, JsonV,
};
use crate::protocol::{ImageAttachment, ImageAttachmentV};

verus! {

broadcast use crate::model::group_views;

/// One image as a list of text members.
pub open spec fn image_record(image: ImageAttachmentV) -> Seq<(Seq<char>, Seq<char>)> {
    seq![("type"@, "image"@), ("data"@, image.base64), ("mimeType"@, image.mime)]
}

/// Images as records.
pub open spec fn image_records(images: Seq<ImageAttachmentV>) -> Seq<Seq<(Seq<char>, Seq<char>)>> {
    images.map_values(|i: ImageAttachmentV| image_record(i))
}

/// The members of a prompt.
pub open spec fn prompt_fields(
    message: Seq<char>,
    images: Seq<ImageAttachmentV>,
    queued: bool,
) -> Seq<(Seq<char>, FieldV)> {
    seq![("type"@, FieldV::Text("prompt"@)), ("message"@, FieldV::Text(message))] + (if queued {
        seq![("streamingBehavior"@, FieldV::Text("followUp"@))]
    } else {
        Seq::empty()
    }) + (if images.len() > 0 {
        seq![("images"@, FieldV::Records(image_records(images)))]
    } else {
        Seq::empty()
    })
}

/// `j` asks the agent to take up `message` with these images; a queued one waits
/// behind the running turn.
pub open spec fn is_prompt(
    j: JsonV,
    message: Seq<char>,
    images: Seq<ImageAttachmentV>,
    queued: bool,
) -> bool {
    &&& j.text("type"@) == Some("prompt"@)
    &&& j.text("message"@) == Some(message)
    &&& j.get("streamingBehavior"@) == (if queued {
        Some(JsonV::Str("followUp"@))
    } else {
        None
    })
    &&& match j.get("images"@) {
        Some(list) => images.len() > 0 && list.as_array() is Some && carries_images(
            list.as_array()->0,
            images,
        ),
        None => images.len() == 0,
    }
}

/// `items` are these images.
pub open spec fn carries_images(items: Seq<JsonV>, images: Seq<ImageAttachmentV>) -> bool {
    &&& items.len() == images.len()
    &&& forall|i: int|
        0 <= i < items.len() ==> (#[trigger] items[i]).text("type"@) == Some("image"@)
            && items[i].text("data"@) == Some(images[i].base64) && items[i].text("mimeType"@)
            == Some(images[i].mime)
}

fn record_of(image: &ImageAttachment) -> (out: Vec<(String, String)>)
    ensures
        out.deep_view() == image_record(image.deep_view()),
{
    let mut out: Vec<(String, String)> = Vec::new();
    out.push(("type".to_owned(), "image".to_owned()));
    out.push(("data".to_owned(), image.base64.clone()));
    out.push(("mimeType".to_owned(), image.mime.clone()));
    assert(out.deep_view() =~= image_record(image.deep_view()));
    out
}

/// The text of a prompt. It reads back as that prompt.
pub fn prompt_body(message: &str, images: &Vec<ImageAttachment>, queued: bool) -> (out: String)
    ensures
        out@ == object_json(prompt_fields(message@, images.deep_view(), queued)),
        json_parse(out@) matches Some(j) && is_prompt(j, message@, images.deep_view(), queued),
{
    let ghost shown = images.deep_view();
    let mut fields: Vec<(String, Field)> = Vec::new();
    fields.push(text_field("type", "prompt"));
    fields.push(text_field("message", message));
    if queued {
        fields.push(text_field("streamingBehavior", "followUp"));
    }
    if images.len() > 0 {
        let mut records: Vec<Vec<(String, String)>> = Vec::new();
        let mut i: usize = 0;
        while i < images.len()
            invariant
                i <= images@.len(),
                shown == images.deep_view(),
                records.deep_view() == image_records(shown.take(i as int)),
            decreases images@.len() - i,
        {
            records.push(record_of(&images[i]));
            assert(shown.take(i + 1) =~= shown.take(i as int).push(images@[i as int].deep_view()));
            assert(records.deep_view() =~= image_records(shown.take(i + 1)));
            i += 1;
        }
        assert(shown.take(i as int) =~= shown);
        fields.push(("images".to_owned(), Field::Records(records)));
    }
    let ghost f = prompt_fields(message@, shown, queued);
    assert(fields.deep_view() =~= f);
    proof {
        lemma_prompt_keys(message@, shown, queued);
    }
    let out = object_text(fields);
    proof {
        lemma_prompt_carried(json_parse(out@)->0, message@, shown, queued);
    }
    out
}

proof fn lemma_prompt_names()
    ensures
        "type"@ != "message"@,
        "type"@ != "streamingBehavior"@,
        "type"@ != "images"@,
        "message"@ != "streamingBehavior"@,
        "message"@ != "images"@,
        "streamingBehavior"@ != "images"@,
        "type"@ != "data"@,
        "type"@ != "mimeType"@,
        "data"@ != "mimeType"@,
{
    reveal_strlit("type");
    assert("type"@.len() == 4 && "type"@[0] == 't');
    reveal_strlit("message");
    assert("message"@.len() == 7 && "message"@[0] == 'm');
    reveal_strlit("streamingBehavior");
    assert("streamingBehavior"@.len() == 17 && "streamingBehavior"@[0] == 's');
    reveal_strlit("images");
    assert("images"@.len() == 6 && "images"@[0] == 'i');
    reveal_strlit("data");
    assert("data"@.len() == 4 && "data"@[0] == 'd');
    reveal_strlit("mimeType");
    assert("mimeType"@.len() == 8 && "mimeType"@[0] == 'm');
}

proof fn lemma_prompt_keys(message: Seq<char>, images: Seq<ImageAttachmentV>, queued: bool)
    ensures
        distinct_keys(prompt_fields(message, images, queued)),
{
    lemma_prompt_names();
}

proof fn lemma_prompt_carried(
    j: JsonV,
    message: Seq<char>,
    images: Seq<ImageAttachmentV>,
    queued: bool,
)
    requires
        carries(j, prompt_fields(message, images, queued)),
    ensures
        is_prompt(j, message, images, queued),
{
    lemma_prompt_names();
    let f = prompt_fields(message, images, queued);
    assert(f[0] == ("type"@, FieldV::Text("prompt"@)));
    assert(f[1] == ("message"@, FieldV::Text(message)));
    if queued {
        assert(f[2] == ("streamingBehavior"@, FieldV::Text("followUp"@)));
    } else {
        assert(forall|i: int| 0 <= i < f.len() ==> (#[trigger] f[i]).0 != "streamingBehavior"@);
        assert(j.get("streamingBehavior"@) is None);
    }
    if images.len() > 0 {
        let k = f.len() - 1;
        assert(f[k] == ("images"@, FieldV::Records(image_records(images))));
        let items = j.at("images"@).as_array()->0;
        assert forall|i: int| 0 <= i < items.len() implies (#[trigger] items[i]).text("type"@)
            == Some("image"@) && items[i].text("data"@) == Some(images[i].base64) && items[i].text(
            "mimeType"@,
        ) == Some(images[i].mime) by {
            let r = image_records(images)[i];
            assert(r == image_record(images[i]));
            assert(distinct_keys(r));
            assert(crate::json::carries_record(items[i], r));
            assert(r[0] == ("type"@, "image"@));
            assert(r[1] == ("data"@, images[i].base64));
            assert(r[2] == ("mimeType"@, images[i].mime));
        }
    } else {
        assert(forall|i: int| 0 <= i < f.len() ==> (#[trigger] f[i]).0 != "images"@);
        assert(j.get("images"@) is None);
    }
}

/// The members of an object whose members are texts.
pub open spec fn text_fields(members: Seq<(Seq<char>, Seq<char>)>) -> Seq<(Seq<char>, FieldV)> {
    members.map_values(|m: (Seq<char>, Seq<char>)| (m.0, FieldV::Text(m.1)))
}

/// The text of an object with one text member.
pub(crate) fn object_of_one(key: &str, value: &str) -> (out: String)
    ensures
        out@ == object_json(text_fields(seq![(key@, value@)])),
        json_parse(out@) matches Some(j) && j.text(key@) == Some(value@),
{
    let mut fields: Vec<(String, Field)> = Vec::new();
    fields.push(text_field(key, value));
    let ghost f = text_fields(seq![(key@, value@)]);
    assert(fields.deep_view() =~= f);
    let out = object_text(fields);
    assert(f[0] == (key@, FieldV::Text(value@)));
    out
}

/// The text of an object with two text members.
pub(crate) fn object_of_two(key: &str, value: &str, key2: &str, value2: &str) -> (out: String)
    requires
        key@ != key2@,
    ensures
        out@ == object_json(text_fields(seq![(key@, value@), (key2@, value2@)])),
        json_parse(out@) matches Some(j) && j.text(key@) == Some(value@) && j.text(key2@) == Some(
            value2@,
        ),
{
    let mut fields: Vec<(String, Field)> = Vec::new();
    fields.push(text_field(key, value));
    fields.push(text_field(key2, value2));
    let ghost f = text_fields(seq![(key@, value@), (key2@, value2@)]);
    assert(fields.deep_view() =~= f);
    let out = object_text(fields);
    assert(f[0] == (key@, FieldV::Text(value@)));
    assert(f[1] == (key2@, FieldV::Text(value2@)));
    out
}

/// The text of an object with three text members.
pub(crate) fn object_of_three(
    key: &str,
    value: &str,
    key2: &str,
    value2: &str,
    key3: &str,
    value3: &str,
) -> (out: String)
    requires
        key@ != key2@,
        key@ != key3@,
        key2@ != key3@,
    ensures
        out@ == object_json(
            text_fields(seq![(key@, value@), (key2@, value2@), (key3@, value3@)]),
        ),
        json_parse(out@) matches Some(j) && j.text(key@) == Some(value@) && j.text(key2@) == Some(
            value2@,
        ) && j.text(key3@) == Some(value3@),
{
    let mut fields: Vec<(String, Field)> = Vec::new();
    fields.push(text_field(key, value));
    fields.push(text_field(key2, value2));
    fields.push(text_field(key3, value3));
    let ghost f = text_fields(seq![(key@, value@), (key2@, value2@), (key3@, value3@)]);
    assert(fields.deep_view() =~= f);
    let out = object_text(fields);
    assert(f[0] == (key@, FieldV::Text(value@)));
    assert(f[1] == (key2@, FieldV::Text(value2@)));
    assert(f[2] == (key3@, FieldV::Text(value3@)));
    out
}

/// A bare command.
pub open spec fn command_json(command: Seq<char>) -> Seq<char> {
    object_json(text_fields(seq![("type"@, command)]))
}

/// The text of a bare command such as `compact`.
pub fn command_body(command: &str) -> (out: String)
    ensures
        out@ == command_json(command@),
        json_parse(out@) matches Some(j) && j.text("type"@) == Some(command@),
{
    object_of_one("type", command)
}

/// A command that carries an id, so that its answer can be told apart.
pub open spec fn tagged_json(id: Seq<char>, command: Seq<char>) -> Seq<char> {
    object_json(text_fields(seq![("id"@, id), ("type"@, command)]))
}

/// The text of a command that carries an id.
pub fn tagged_body(id: &str, command: &str) -> (out: String)
    ensures
        out@ == tagged_json(id@, command@),
        json_parse(out@) matches Some(j) && j.text("id"@) == Some(id@) && j.text("type"@) == Some(
            command@,
        ),
{
    proof {
        reveal_strlit("id");
        assert("id"@.len() == 2 && "id"@[0] == 'i');
        reveal_strlit("type");
        assert("type"@.len() == 4 && "type"@[0] == 't');
    }
    object_of_two("id", id, "type", command)
}

/// A request to switch the model.
pub open spec fn set_model_json(provider: Seq<char>, model_id: Seq<char>) -> Seq<char> {
    object_json(
        text_fields(
            seq![("type"@, "set_model"@), ("provider"@, provider), ("modelId"@, model_id)],
        ),
    )
}

/// The text of a request to switch the model.
pub fn set_model_body(provider: &str, model_id: &str) -> (out: String)
    ensures
        out@ == set_model_json(provider@, model_id@),
        json_parse(out@) matches Some(j) && j.text("type"@) == Some("set_model"@) && j.text(
            "provider"@,
        ) == Some(provider@) && j.text("modelId"@) == Some(model_id@),
{
    proof {
        reveal_strlit("type");
        assert("type"@.len() == 4 && "type"@[0] == 't');
        reveal_strlit("provider");
        assert("provider"@.len() == 8 && "provider"@[0] == 'p');
        reveal_strlit("modelId");
        assert("modelId"@.len() == 7 && "modelId"@[0] == 'm');
    }
    object_of_three("type", "set_model", "provider", provider, "modelId", model_id)
}

/// A request to switch the thinking level.
pub open spec fn set_thinking_json(level: Seq<char>) -> Seq<char> {
    object_json(text_fields(seq![("type"@, "set_thinking_level"@), ("level"@, level)]))
}

/// The text of a request to switch the thinking level.
pub fn set_thinking_body(level: &str) -> (out: String)
    ensures
        out@ == set_thinking_json(level@),
        json_parse(out@) matches Some(j) && j.text("type"@) == Some("set_thinking_level"@)
            && j.text("level"@) == Some(level@),
{
    proof {
        reveal_strlit("type");
        assert("type"@.len() == 4 && "type"@[0] == 't');
        reveal_strlit("level");
        assert("level"@.len() == 5 && "level"@[0] == 'l');
    }
    object_of_two("type", "set_thinking_level", "level", level)
}

/// A request for a fresh session in `cwd`.
pub open spec fn new_session_json(cwd: Seq<char>) -> Seq<char> {
    object_json(text_fields(seq![("cwd"@, cwd), ("type"@, "ensure_session"@)]))
}

/// The text of a request for a fresh session in `cwd`.
pub fn new_session_body(cwd: &str) -> (out: String)
    ensures
        out@ == new_session_json(cwd@),
        json_parse(out@) matches Some(j) && j.text("type"@) == Some("ensure_session"@) && j.text(
            "cwd"@,
        ) == Some(cwd@),
{
    proof {
        reveal_strlit("cwd");
        assert("cwd"@.len() == 3 && "cwd"@[0] == 'c');
        reveal_strlit("type");
        assert("type"@.len() == 4 && "type"@[0] == 't');
    }
    object_of_two("cwd", cwd, "type", "ensure_session")
}

/// A request of the child process to switch to the session in this file.
pub open spec fn switch_session_json(path: Seq<char>) -> Seq<char> {
    object_json(text_fields(seq![("type"@, "switch_session"@), ("sessionPath"@, path)]))
}

/// The text of a request to switch to the session in this file.
pub fn switch_session_body(path: &str) -> (out: String)
    ensures
        out@ == switch_session_json(path@),
        json_parse(out@) matches Some(j) && j.text("type"@) == Some("switch_session"@) && j.text(
            "sessionPath"@,
        ) == Some(path@),
{
    proof {
        reveal_strlit("type");
        assert("type"@.len() == 4 && "type"@[0] == 't');
        reveal_strlit("sessionPath");
        assert("sessionPath"@.len() == 11 && "sessionPath"@[0] == 's');
    }
    object_of_two("type", "switch_session", "sessionPath", path)
}

/// The members of the answer to an extension's question: a cancellation beats a
/// value, and a value beats a confirmation.
pub open spec fn answer_fields(
    id: Seq<char>,
    value: Option<Seq<char>>,
    confirmed: Option<bool>,
    cancelled: bool,
) -> Seq<(Seq<char>, FieldV)> {
    seq![("type"@, FieldV::Text("extension_ui_response"@)), ("id"@, FieldV::Text(id))] + (
    if cancelled {
        seq![("cancelled"@, FieldV::Flag(true))]
    } else {
        match value {
            Some(v) => seq![("value"@, FieldV::Text(v))],
            None => match confirmed {
                Some(c) => seq![("confirmed"@, FieldV::Flag(c))],
                None => Seq::empty(),
            },
        }
    })
}

/// `j` answers the question `id`.
pub open spec fn is_answer(
    j: JsonV,
    id: Seq<char>,
    value: Option<Seq<char>>,
    confirmed: Option<bool>,
    cancelled: bool,
) -> bool {
    &&& j.text("type"@) == Some("extension_ui_response"@)
    &&& j.text("id"@) == Some(id)
    &&& j.get("cancelled"@) == (if cancelled {
        Some(JsonV::Bool(true))
    } else {
        None
    })
    &&& j.get("value"@) == (if cancelled {
        None
    } else {
        match value {
            Some(v) => Some(JsonV::Str(v)),
            None => None,
        }
    })
    &&& j.get("confirmed"@) == (if cancelled || value is Some {
        None
    } else {
        match confirmed {
            Some(c) => Some(JsonV::Bool(c)),
            None => None,
        }
    })
}

/// The text of the answer to an extension's question. It reads back as that
/// answer.
pub fn answer_body(
    id: &str,
    value: &Option<String>,
    confirmed: Option<bool>,
    cancelled: bool,
) -> (out: String)
    ensures
        out@ == object_json(answer_fields(id@, value.deep_view(), confirmed, cancelled)),
        json_parse(out@) matches Some(j) && is_answer(j, id@, value.deep_view(), confirmed, cancelled),
{
    let mut fields: Vec<(String, Field)> = Vec::new();
    fields.push(text_field("type", "extension_ui_response"));
    fields.push(text_field("id", id));
    if cancelled {
        fields.push(("cancelled".to_owned(), Field::Flag(true)));
    } else if let Some(v) = value {
        fields.push(text_field("value", v.as_str()));
    } else if let Some(c) = confirmed {
        fields.push(("confirmed".to_owned(), Field::Flag(c)));
    }
    let ghost f = answer_fields(id@, value.deep_view(), confirmed, cancelled);
    assert(fields.deep_view() =~= f);
    proof {
        lemma_answer_names();
        assert(distinct_keys(f));
    }
    let out = object_text(fields);
    proof {
        lemma_answer_carried(json_parse(out@)->0, id@, value.deep_view(), confirmed, cancelled);
    }
    out
}

proof fn lemma_answer_names()
    ensures
        "type"@ != "id"@,
        "type"@ != "cancelled"@,
        "type"@ != "value"@,
        "type"@ != "confirmed"@,
        "id"@ != "cancelled"@,
        "id"@ != "value"@,
        "id"@ != "confirmed"@,
        "cancelled"@ != "value"@,
        "cancelled"@ != "confirmed"@,
        "value"@ != "confirmed"@,
{
    reveal_strlit("type");
    assert("type"@.len() == 4 && "type"@[0] == 't');
    reveal_strlit("id");
    assert("id"@.len() == 2 && "id"@[0] == 'i');
    reveal_strlit("cancelled");
    assert("cancelled"@.len() == 9 && "cancelled"@[0] == 'c');
    reveal_strlit("value");
    assert("value"@.len() == 5 && "value"@[0] == 'v');
    reveal_strlit("confirmed");
    assert("confirmed"@.len() == 9 && "confirmed"@[0] == 'c');
    assert("cancelled"@[1] == 'a');
    assert("confirmed"@[1] == 'o');
}

proof fn lemma_answer_carried(
    j: JsonV,
    id: Seq<char>,
    value: Option<Seq<char>>,
    confirmed: Option<bool>,
    cancelled: bool,
)
    requires
        carries(j, answer_fields(id, value, confirmed, cancelled)),
    ensures
        is_answer(j, id, value, confirmed, cancelled),
{
    lemma_answer_names();
    let f = answer_fields(id, value, confirmed, cancelled);
    assert(f[0] == ("type"@, FieldV::Text("extension_ui_response"@)));
    assert(f[1] == ("id"@, FieldV::Text(id)));
    if f.len() > 2 {
        let last = f[2];
        assert(j.get(last.0) is Some);
    }
    if !cancelled {
        assert(forall|i: int| 0 <= i < f.len() ==> (#[trigger] f[i]).0 != "cancelled"@);
        assert(j.get("cancelled"@) is None);
    }
    if cancelled || value is None {
        assert(forall|i: int| 0 <= i < f.len() ==> (#[trigger] f[i]).0 != "value"@);
        assert(j.get("value"@) is None);
    }
    if cancelled || value is Some || confirmed is None {
        assert(forall|i: int| 0 <= i < f.len() ==> (#[trigger] f[i]).0 != "confirmed"@);
        assert(j.get("confirmed"@) is None);
    }
}

// ── Laws ────────────────────────────────────────────────────────────────────

/// Whoever reads a prompt gets the whole message, every image with its data and its type,
/// in order, and the mark to wait only if it is to wait.
pub proof fn law_prompt_says_everything(
    j: JsonV,
    message: Seq<char>,
    images: Seq<ImageAttachmentV>,
    queued: bool,
)
    requires
        carries(j, prompt_fields(message, images, queued)),
    ensures
        j.text("type"@) == Some("prompt"@),
        j.text("message"@) == Some(message),
        queued ==> j.text("streamingBehavior"@) == Some("followUp"@),
        !queued ==> j.get("streamingBehavior"@) is None,
        images.len() == 0 ==> j.get("images"@) is None,
        images.len() > 0 ==> j.list("images"@) is Some && (j.list("images"@)->0).len()
            == images.len(),
        forall|i: int|
            #![trigger images[i]]
            0 <= i < images.len() ==> {
                let item = (j.list("images"@)->0)[i];
                &&& item.text("type"@) == Some("image"@)
                &&& item.text("data"@) == Some(images[i].base64)
                &&& item.text("mimeType"@) == Some(images[i].mime)
            },
{
    lemma_prompt_carried(j, message, images, queued);
    assert forall|i: int| #![trigger images[i]] 0 <= i < images.len() implies {
        let item = (j.list("images"@)->0)[i];
        &&& item.text("type"@) == Some("image"@)
        &&& item.text("data"@) == Some(images[i].base64)
        &&& item.text("mimeType"@) == Some(images[i].mime)
    } by {
        let item = (j.list("images"@)->0)[i];
        assert(item.text("type"@) == Some("image"@));
    }
}

/// Whoever reads an answer learns which question it answers and what was chosen: that it
/// was dismissed, or else the value, or else the confirmation.
pub proof fn law_answer_says_what_was_chosen(
    j: JsonV,
    id: Seq<char>,
    value: Option<Seq<char>>,
    confirmed: Option<bool>,
    cancelled: bool,
)
    requires
        carries(j, answer_fields(id, value, confirmed, cancelled)),
    ensures
        j.text("type"@) == Some("extension_ui_response"@),
        j.text("id"@) == Some(id),
        cancelled ==> j.flag("cancelled"@) && j.get("value"@) is None && j.get("confirmed"@) is None,
        !cancelled && value is Some ==> j.text("value"@) == value && j.get("confirmed"@) is None
            && j.get("cancelled"@) is None,
        !cancelled && value is None && confirmed is Some ==> j.get("confirmed"@) == Some(
            JsonV::Bool(confirmed->0),
        ) && j.get("value"@) is None && j.get("cancelled"@) is None,
{
    lemma_answer_carried(j, id, value, confirmed, cancelled);
}

/// Each command is written with its type and its arguments under their names.
pub proof fn law_commands_are_written_by_name(
    id: Seq<char>,
    command: Seq<char>,
    provider: Seq<char>,
    model_id: Seq<char>,
    level: Seq<char>,
    cwd: Seq<char>,
    path: Seq<char>,
)
    ensures
        command_json(command) == object_json(seq![("type"@, FieldV::Text(command))]),
        tagged_json(id, command) == object_json(
            seq![("id"@, FieldV::Text(id)), ("type"@, FieldV::Text(command))],
        ),
        set_model_json(provider, model_id) == object_json(
            seq![
                ("type"@, FieldV::Text("set_model"@)),
                ("provider"@, FieldV::Text(provider)),
                ("modelId"@, FieldV::Text(model_id)),
            ],
        ),
        set_thinking_json(level) == object_json(
            seq![("type"@, FieldV::Text("set_thinking_level"@)), ("level"@, FieldV::Text(level))],
        ),
        new_session_json(cwd) == object_json(
            seq![("cwd"@, FieldV::Text(cwd)), ("type"@, FieldV::Text("ensure_session"@))],
        ),
        switch_session_json(path) == object_json(
            seq![("type"@, FieldV::Text("switch_session"@)), ("sessionPath"@, FieldV::Text(path))],
        ),
{
    let a = seq![("type"@, command)];
    assert(text_fields(a) =~= seq![("type"@, FieldV::Text(command))]);
    let b = seq![("id"@, id), ("type"@, command)];
    assert(text_fields(b) =~= seq![("id"@, FieldV::Text(id)), ("type"@, FieldV::Text(command))]);
    let c = seq![("type"@, "set_model"@), ("provider"@, provider), ("modelId"@, model_id)];
    assert(text_fields(c) =~= seq![
        ("type"@, FieldV::Text("set_model"@)),
        ("provider"@, FieldV::Text(provider)),
        ("modelId"@, FieldV::Text(model_id)),
    ]);
    let d = seq![("type"@, "set_thinking_level"@), ("level"@, level)];
    assert(text_fields(d) =~= seq![
        ("type"@, FieldV::Text("set_thinking_level"@)),
        ("level"@, FieldV::Text(level)),
    ]);
    let e = seq![("cwd"@, cwd), ("type"@, "ensure_session"@)];
    assert(text_fields(e) =~= seq![
        ("cwd"@, FieldV::Text(cwd)),
        ("type"@, FieldV::Text("ensure_session"@)),
    ]);
    let f = seq![("type"@, "switch_session"@), ("sessionPath"@, path)];
    assert(text_fields(f) =~= seq![
        ("type"@, FieldV::Text("switch_session"@)),
        ("sessionPath"@, FieldV::Text(path)),
    ]);
}

} // verus!
