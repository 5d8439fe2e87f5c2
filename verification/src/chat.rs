//! The text chat of the desktop window: the checks on a chat request, the
//! request messages and the model's answer.
use vstd::prelude::*;
use vstd::string::StringExecFns;
use crate::conversation::{MAX_MESSAGES, MAX_TOTAL_CHARACTERS};
use crate::ollama::{is_model_available, string_views};
use crate::text::{text_equal, trim, trimmed};

verus! {

/// The system prompt that opens every text chat.
pub const TERRA_SYSTEM_PROMPT: &'static str = "Ты — Терра, локальный текстовый помощник пользователя. Отвечай по-русски, если пользователь не попросил другой язык. Будь ясной, доброжелательной и честно говори о своих ограничениях. В этой версии у тебя нет доступа к файлам, браузеру, микрофону или системным командам: не утверждай, что выполнила такие действия.";

/// One message of the chat, as the window sends it.
#[derive(Debug)]
pub struct ChatMessage {
    pub role: String,
    pub content: String,
}

/// Why a chat request failed.
#[derive(Debug)]
pub enum ChatError {
    /// The HTTP client could not be built.
    Client(String),
    /// The server could not be reached for the list of models.
    Connect(String),
    /// The list of models was answered with this HTTP status.
    ModelsStatus(String),
    /// The list of models could not be read.
    ModelsDecode(String),
    /// No model was chosen.
    NoModelSelected,
    /// The dialogue holds no message.
    EmptyDialog,
    /// The dialogue holds too many messages or characters.
    DialogTooLong,
    /// A message has a role other than `user` or `assistant`.
    UnsupportedRole,
    /// The chosen model is not installed.
    ModelNotFound,
    /// The chat request could not be sent.
    Request(String),
    /// The chat request was answered with this HTTP status and body.
    Status { status: String, details: String },
    /// The answer could not be read.
    AnswerDecode(String),
    /// The answer holds no text.
    EmptyAnswer,
}

/// The text shown to the user for each error.
pub open spec fn chat_error_text(e: ChatError) -> Seq<char> {
    match e {
        ChatError::Client(d) => "Не удалось создать клиент локальной модели: "@ + d@,
        ChatError::Connect(d) => "Не удалось подключиться к Ollama на 127.0.0.1:11434. Запусти Ollama и установи локальную модель. ("@
            + d@ + ")"@,
        ChatError::ModelsStatus(s) => "Локальный сервер моделей вернул HTTP "@ + s@
            + " при получении списка моделей."@,
        ChatError::ModelsDecode(d) => "Не удалось прочитать список локальных моделей: "@ + d@,
        ChatError::NoModelSelected => "Сначала выбери установленную локальную модель."@,
        ChatError::EmptyDialog => "В диалоге пока нет сообщения."@,
        ChatError::DialogTooLong => "Диалог стал слишком длинным. Очисти его и начни новый."@,
        ChatError::UnsupportedRole => "В диалоге обнаружена неподдерживаемая роль сообщения."@,
        ChatError::ModelNotFound => "Выбранная модель не найдена в Ollama. Обнови список моделей."@,
        ChatError::Request(d) => "Ошибка запроса к локальной модели: "@ + d@,
        ChatError::Status { status, details } => "Локальная модель вернула HTTP "@ + status@ + ". "@
            + details@,
        ChatError::AnswerDecode(d) => "Не удалось прочитать ответ локальной модели: "@ + d@,
        ChatError::EmptyAnswer => "Локальная модель вернула пустой ответ."@,
    }
}

impl ChatError {
    /// The text shown to the user.
    pub fn message(&self) -> (res: String)
        ensures
            res@ == chat_error_text(*self),
    {
        match self {
            ChatError::Client(d) => String::from_str(
                "Не удалось создать клиент локальной модели: ",
            ).concat(d.as_str()),
            ChatError::Connect(d) => String::from_str(
                "Не удалось подключиться к Ollama на 127.0.0.1:11434. Запусти Ollama и установи локальную модель. (",
            ).concat(d.as_str()).concat(")"),
            ChatError::ModelsStatus(s) => String::from_str(
                "Локальный сервер моделей вернул HTTP ",
            ).concat(s.as_str()).concat(" при получении списка моделей."),
            ChatError::ModelsDecode(d) => String::from_str(
                "Не удалось прочитать список локальных моделей: ",
            ).concat(d.as_str()),
            ChatError::NoModelSelected => String::from_str(
                "Сначала выбери установленную локальную модель.",
            ),
            ChatError::EmptyDialog => String::from_str("В диалоге пока нет сообщения."),
            ChatError::DialogTooLong => String::from_str(
                "Диалог стал слишком длинным. Очисти его и начни новый.",
            ),
            ChatError::UnsupportedRole => String::from_str(
                "В диалоге обнаружена неподдерживаемая роль сообщения.",
            ),
            ChatError::ModelNotFound => String::from_str(
                "Выбранная модель не найдена в Ollama. Обнови список моделей.",
            ),
            ChatError::Request(d) => String::from_str("Ошибка запроса к локальной модели: ").concat(
                d.as_str(),
            ),
            ChatError::Status { status, details } => String::from_str(
                "Локальная модель вернула HTTP ",
            ).concat(status.as_str()).concat(". ").concat(details.as_str()),
            ChatError::AnswerDecode(d) => String::from_str(
                "Не удалось прочитать ответ локальной модели: ",
            ).concat(d.as_str()),
            ChatError::EmptyAnswer => String::from_str("Локальная модель вернула пустой ответ."),
        }
    }
}

/// Whether a message role may be sent: `user` or `assistant`.
pub open spec fn is_dialog_role(role: Seq<char>) -> bool {
    role == "user"@ || role == "assistant"@
}

/// The messages checked one after another, `total` characters counted before
/// them: the first message with a role other than `user` or `assistant`, or
/// that brings the count over the limit, decides the error.
pub open spec fn dialog_problem(messages: Seq<ChatMessage>, total: int) -> Option<ChatError>
    decreases messages.len(),
{
    if messages.len() == 0 {
        None
    } else if !is_dialog_role(messages[0].role@) {
        Some(ChatError::UnsupportedRole)
    } else if total + messages[0].content@.len() > MAX_TOTAL_CHARACTERS {
        Some(ChatError::DialogTooLong)
    } else {
        dialog_problem(messages.drop_first(), total + messages[0].content@.len())
    }
}

/// What the checks make of a chat request: the model to use, trimmed, or the
/// error.
pub open spec fn chat_request_check(model: Seq<char>, messages: Seq<ChatMessage>) -> Result<
    Seq<char>,
    ChatError,
> {
    if trimmed(model).len() == 0 {
        Err(ChatError::NoModelSelected)
    } else if messages.len() == 0 {
        Err(ChatError::EmptyDialog)
    } else if messages.len() > MAX_MESSAGES {
        Err(ChatError::DialogTooLong)
    } else {
        match dialog_problem(messages, 0) {
            Some(e) => Err(e),
            None => Ok(trimmed(model)),
        }
    }
}

/// The result with the model taken by its view.
pub open spec fn model_result_view(r: Result<String, ChatError>) -> Result<Seq<char>, ChatError> {
    match r {
        Ok(m) => Ok(m@),
        Err(e) => Err(e),
    }
}

/// Checks a chat request before anything is sent: a model must be chosen and
/// the dialogue must be non-empty, not too long, and hold only user and
/// assistant messages. Returns the chosen model, trimmed.
pub fn check_chat_request(model: &str, messages: &[ChatMessage]) -> (res: Result<String, ChatError>)
    ensures
        model_result_view(res) == chat_request_check(model@, messages@),
{
    let chosen = trim(model);
    if chosen.as_str().unicode_len() == 0 {
        return Err(ChatError::NoModelSelected);
    }
    if messages.len() == 0 {
        return Err(ChatError::EmptyDialog);
    }
    if messages.len() > MAX_MESSAGES {
        return Err(ChatError::DialogTooLong);
    }
    let user = String::from_str("user");
    let assistant = String::from_str("assistant");
    let mut total: usize = 0;
    let mut i: usize = 0;
    proof {
        assert(messages@.skip(0) == messages@);
    }
    while i < messages.len()
        invariant
            i <= messages.len(),
            0 < messages.len() <= MAX_MESSAGES,
            trimmed(model@).len() > 0,
            user@ == "user"@,
            assistant@ == "assistant"@,
            total <= MAX_TOTAL_CHARACTERS,
            dialog_problem(messages@, 0) == dialog_problem(messages@.skip(i as int), total as int),
        decreases messages.len() - i,
    {
        proof {
            assert(messages@.skip(i as int)[0] == messages@[i as int]);
            assert(messages@.skip(i as int).drop_first() == messages@.skip(i + 1));
        }
        let message = &messages[i];
        if !text_equal(message.role.as_str(), user.as_str()) && !text_equal(
            message.role.as_str(),
            assistant.as_str(),
        ) {
            proof {
                assert(!is_dialog_role(messages@.skip(i as int)[0].role@));
                assert(dialog_problem(messages@.skip(i as int), total as int) == Some(
                    ChatError::UnsupportedRole,
                ));
            }
            return Err(ChatError::UnsupportedRole);
        }
        let count = message.content.as_str().unicode_len();
        if count > MAX_TOTAL_CHARACTERS - total {
            proof {
                assert(dialog_problem(messages@.skip(i as int), total as int) == Some(
                    ChatError::DialogTooLong,
                ));
            }
            return Err(ChatError::DialogTooLong);
        }
        total = total + count;
        i = i + 1;
    }
    proof {
        assert(messages@.skip(i as int).len() == 0);
    }
    Ok(chosen)
}

/// Checks that the chosen model is installed.
pub fn check_model_installed(model: &str, available: &[String]) -> (res: Result<(), ChatError>)
    ensures
        res is Ok <==> string_views(available@).contains(model@),
        res matches Err(e) ==> e == ChatError::ModelNotFound,
{
    if is_model_available(model, available) {
        Ok(())
    } else {
        Err(ChatError::ModelNotFound)
    }
}

/// The messages of the chat request: the system prompt, then the dialogue.
pub open spec fn chat_request_messages_spec(messages: Seq<ChatMessage>) -> Seq<(Seq<char>, Seq<char>)> {
    seq![("system"@, TERRA_SYSTEM_PROMPT@)] + messages.map_values(
        |m: ChatMessage| (m.role@, m.content@),
    )
}

/// The role and content of each message.
pub open spec fn chat_message_views(messages: Seq<ChatMessage>) -> Seq<(Seq<char>, Seq<char>)> {
    messages.map_values(|m: ChatMessage| (m.role@, m.content@))
}

/// The messages sent to the model: the system prompt first, then the dialogue.
pub fn chat_request_messages(messages: &[ChatMessage]) -> (res: Vec<ChatMessage>)
    ensures
        chat_message_views(res@) == chat_request_messages_spec(messages@),
{
    let mut res: Vec<ChatMessage> = Vec::new();
    res.push(
        ChatMessage {
            role: String::from_str("system"),
            content: String::from_str(TERRA_SYSTEM_PROMPT),
        },
    );
    let mut i: usize = 0;
    while i < messages.len()
        invariant
            i <= messages.len(),
            res@.len() == i + 1,
            res@[0].role@ == "system"@,
            res@[0].content@ == TERRA_SYSTEM_PROMPT@,
            forall|k: int|
                0 <= k < i ==> (#[trigger] res@[k + 1]).role@ == messages@[k].role@
                    && res@[k + 1].content@ == messages@[k].content@,
        decreases messages.len() - i,
    {
        res.push(
            ChatMessage { role: messages[i].role.clone(), content: messages[i].content.clone() },
        );
        i = i + 1;
    }
    proof {
        let l = chat_message_views(res@);
        let r = chat_request_messages_spec(messages@);
        assert forall|k: int| 0 <= k < l.len() implies l[k] == r[k] by {
            if k > 0 {
                assert(res@[(k - 1) + 1].role@ == messages@[k - 1].role@);
            }
        }
        assert(l =~= r);
    }
    res
}

/// The model's answer, trimmed, which must not be empty.
pub fn finish_answer(content: &str) -> (res: Result<String, ChatError>)
    ensures
        trimmed(content@).len() == 0 ==> res == Err::<String, ChatError>(ChatError::EmptyAnswer),
        trimmed(content@).len() > 0 ==> (res matches Ok(a) && a@ == trimmed(content@)),
{
    let answer = trim(content);
    if answer.as_str().unicode_len() == 0 {
        Err(ChatError::EmptyAnswer)
    } else {
        Ok(answer)
    }
}


/// The number of characters in the contents of the messages.
pub open spec fn chat_characters(messages: Seq<ChatMessage>) -> int
    decreases messages.len(),
{
    if messages.len() == 0 {
        0
    } else {
        messages[0].content@.len() + chat_characters(messages.drop_first())
    }
}

proof fn lemma_dialog_problem(messages: Seq<ChatMessage>, total: int)
    requires
        0 <= total <= MAX_TOTAL_CHARACTERS,
    ensures
        dialog_problem(messages, total) is None <==> ((forall|i: int|
            0 <= i < messages.len() ==> is_dialog_role(#[trigger] messages[i].role@)) && total
            + chat_characters(messages) <= MAX_TOTAL_CHARACTERS),
    decreases messages.len(),
{
    if messages.len() > 0 {
        let rest = messages.drop_first();
        if total + messages[0].content@.len() <= MAX_TOTAL_CHARACTERS {
            lemma_dialog_problem(rest, total + messages[0].content@.len());
        }
        lemma_chat_characters_nonneg(rest);
        assert forall|i: int| 1 <= i < messages.len() implies messages[i] == rest[i - 1] by {}
        if (forall|i: int| 0 <= i < rest.len() ==> is_dialog_role(#[trigger] rest[i].role@))
            && is_dialog_role(messages[0].role@) {
            assert forall|i: int| 0 <= i < messages.len() implies is_dialog_role(
                #[trigger] messages[i].role@,
            ) by {
                if i > 0 {
                    assert(messages[i] == rest[i - 1]);
                }
            }
        }
        if forall|i: int| 0 <= i < messages.len() ==> is_dialog_role(#[trigger] messages[i].role@) {
            assert(is_dialog_role(messages[0].role@));
            assert forall|i: int| 0 <= i < rest.len() implies is_dialog_role(
                #[trigger] rest[i].role@,
            ) by {
                assert(rest[i] == messages[i + 1]);
            }
        }
    }
}

proof fn lemma_chat_characters_nonneg(messages: Seq<ChatMessage>)
    ensures
        chat_characters(messages) >= 0,
    decreases messages.len(),
{
    if messages.len() > 0 {
        lemma_chat_characters_nonneg(messages.drop_first());
    }
}

/// A chat request is accepted exactly when a model is chosen and the dialogue
/// holds one to `MAX_MESSAGES` messages, all from the user or the assistant,
/// with at most `MAX_TOTAL_CHARACTERS` characters together.
pub proof fn lemma_chat_request_accepted(model: Seq<char>, messages: Seq<ChatMessage>)
    ensures
        chat_request_check(model, messages) is Ok <==> (trimmed(model).len() > 0 && 1
            <= messages.len() <= MAX_MESSAGES && (forall|i: int|
            0 <= i < messages.len() ==> is_dialog_role(#[trigger] messages[i].role@))
            && chat_characters(messages) <= MAX_TOTAL_CHARACTERS),
{
    lemma_dialog_problem(messages, 0);
}

/// The window chat request is the system prompt followed by the whole
/// dialogue, message for message: one more message than the dialogue, the
/// prompt first, and message `k + 1` with the role and content of message `k`.
/// Adding a message to the dialogue adds exactly that message at the end of
/// the request.
pub proof fn lemma_chat_request_carries_dialogue(messages: Seq<ChatMessage>, next: ChatMessage)
    ensures
        chat_request_messages_spec(messages).len() == messages.len() + 1,
        chat_request_messages_spec(messages)[0] == ("system"@, TERRA_SYSTEM_PROMPT@),
        forall|k: int|
            0 <= k < messages.len() ==> #[trigger] chat_request_messages_spec(messages)[k + 1] == (
                messages[k].role@,
                messages[k].content@,
            ),
        chat_request_messages_spec(messages.push(next)) == chat_request_messages_spec(messages).push(
            (next.role@, next.content@),
        ),
{
    let r = chat_request_messages_spec(messages);
    assert forall|k: int| 0 <= k < messages.len() implies #[trigger] r[k + 1] == (
        messages[k].role@,
        messages[k].content@,
    ) by {}
    assert(chat_request_messages_spec(messages.push(next)) =~= r.push((next.role@, next.content@)));
}

} // verus!
