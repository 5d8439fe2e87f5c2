//! The voice conversation with a local Ollama model: the checks on the
//! dialogue history, the choice of model, the request messages and the
//! reading of the streamed reply, which arrives as newline-separated JSON.
use vstd::prelude::*;
use vstd::string::StringExecFns;
use crate::ollama::{is_model_available, string_views};
use crate::text::{
    lemma_trimmed_is_trimmed, lemma_trimmed_piece,
    chars_of, decode_utf8_lossy, extend_chars, is_trimmed, slice_chars, string_from_chars, trim,
    trim_chars, trimmed, utf8_lossy,
};

verus! {

/// Most messages a dialogue may hold.
pub const MAX_MESSAGES: usize = 40;

/// Most characters that the messages of a dialogue may hold together.
pub const MAX_TOTAL_CHARACTERS: usize = 48000;

/// The system prompt that opens every voice conversation.
pub const SYSTEM_PROMPT: &'static str = "Ты — Терра, локальный голосовой помощник пользователя. Отвечай по-русски, если пользователь не попросил другой язык. Отвечай естественно и по существу. Ты находишься в режиме разговора и не выполняешь системные команды: действия на компьютере обрабатываются отдельным безопасным маршрутизатором Terra.";

/// One message of the dialogue history.
#[derive(Clone, Debug)]
pub struct ConversationMessage {
    pub role: String,
    pub content: String,
}

/// The model's complete reply and the model that gave it.
#[derive(Debug)]
pub struct ConversationReply {
    pub text: String,
    pub model: String,
}

/// Why a conversation turn failed.
#[derive(Debug)]
pub enum ConversationError {
    /// The HTTP client could not be built.
    Client(String),
    /// The server could not be reached for the list of models.
    Connect(String),
    /// The list of models was answered with this HTTP status.
    ModelsStatus(String),
    /// The list of models could not be read.
    ModelsDecode(String),
    /// The history holds no message.
    EmptyHistory,
    /// The history holds too many messages or characters.
    HistoryTooLong,
    /// The server has no local model.
    NoModels,
    /// The chat request could not be sent.
    Request(String),
    /// The chat request was answered with this HTTP status and body.
    Status { status: String, details: String },
    /// Reading the reply stream failed.
    Stream(String),
    /// A line of the reply stream is not a valid message.
    StreamDecode(String),
    /// The model reported an error.
    Model(String),
    /// The last, unterminated piece of the reply stream is not a valid message.
    StreamEndDecode(String),
    /// The reply holds no text.
    EmptyReply,
}

/// The text shown to the user for each error.
pub open spec fn conversation_error_text(e: ConversationError) -> Seq<char> {
    match e {
        ConversationError::Client(d) => "Не удалось создать клиент Ollama: "@ + d@,
        ConversationError::Connect(d) => "Не удалось подключиться к Ollama на 127.0.0.1:11434. Запусти Ollama и установи локальную модель. ("@
            + d@ + ")"@,
        ConversationError::ModelsStatus(s) => "Ollama вернула HTTP "@ + s@
            + " при получении списка моделей."@,
        ConversationError::ModelsDecode(d) => "Не удалось прочитать список моделей Ollama: "@ + d@,
        ConversationError::EmptyHistory => "В голосовом диалоге пока нет сообщения."@,
        ConversationError::HistoryTooLong => "Голосовой диалог стал слишком длинным. Начни новый разговор."@,
        ConversationError::NoModels => "Ollama доступна, но локальные модели не найдены."@,
        ConversationError::Request(d) => "Ошибка запроса к локальной модели: "@ + d@,
        ConversationError::Status { status, details } => "Ollama вернула HTTP "@ + status@ + ". "@
            + details@,
        ConversationError::Stream(d) => "Ошибка потока Ollama: "@ + d@,
        ConversationError::StreamDecode(d) => "Не удалось прочитать поток Ollama: "@ + d@,
        ConversationError::Model(d) => "Ollama вернула ошибку: "@ + d@,
        ConversationError::StreamEndDecode(d) => "Не удалось прочитать завершение потока Ollama: "@
            + d@,
        ConversationError::EmptyReply => "Локальная модель вернула пустой ответ."@,
    }
}

impl ConversationError {
    /// The text shown to the user.
    pub fn message(&self) -> (res: String)
        ensures
            res@ == conversation_error_text(*self),
    {
        match self {
            ConversationError::Client(d) => String::from_str("Не удалось создать клиент Ollama: ").concat(
                d.as_str(),
            ),
            ConversationError::Connect(d) => String::from_str(
                "Не удалось подключиться к Ollama на 127.0.0.1:11434. Запусти Ollama и установи локальную модель. (",
            ).concat(d.as_str()).concat(")"),
            ConversationError::ModelsStatus(s) => String::from_str("Ollama вернула HTTP ").concat(
                s.as_str(),
            ).concat(" при получении списка моделей."),
            ConversationError::ModelsDecode(d) => String::from_str(
                "Не удалось прочитать список моделей Ollama: ",
            ).concat(d.as_str()),
            ConversationError::EmptyHistory => String::from_str(
                "В голосовом диалоге пока нет сообщения.",
            ),
            ConversationError::HistoryTooLong => String::from_str(
                "Голосовой диалог стал слишком длинным. Начни новый разговор.",
            ),
            ConversationError::NoModels => String::from_str(
                "Ollama доступна, но локальные модели не найдены.",
            ),
            ConversationError::Request(d) => String::from_str(
                "Ошибка запроса к локальной модели: ",
            ).concat(d.as_str()),
            ConversationError::Status { status, details } => String::from_str(
                "Ollama вернула HTTP ",
            ).concat(status.as_str()).concat(". ").concat(details.as_str()),
            ConversationError::Stream(d) => String::from_str("Ошибка потока Ollama: ").concat(d.as_str()),
            ConversationError::StreamDecode(d) => String::from_str(
                "Не удалось прочитать поток Ollama: ",
            ).concat(d.as_str()),
            ConversationError::Model(d) => String::from_str("Ollama вернула ошибку: ").concat(d.as_str()),
            ConversationError::StreamEndDecode(d) => String::from_str(
                "Не удалось прочитать завершение потока Ollama: ",
            ).concat(d.as_str()),
            ConversationError::EmptyReply => String::from_str(
                "Локальная модель вернула пустой ответ.",
            ),
        }
    }
}

/// The number of characters in the contents of the messages.
pub open spec fn total_characters(history: Seq<ConversationMessage>) -> nat
    decreases history.len(),
{
    if history.len() == 0 {
        0
    } else {
        total_characters(history.drop_last()) + history.last().content@.len()
    }
}

/// What the checks make of a history: `None` when it may be sent.
pub open spec fn history_problem(history: Seq<ConversationMessage>) -> Option<ConversationError> {
    if history.len() == 0 {
        Some(ConversationError::EmptyHistory)
    } else if history.len() > MAX_MESSAGES {
        Some(ConversationError::HistoryTooLong)
    } else if total_characters(history) > MAX_TOTAL_CHARACTERS {
        Some(ConversationError::HistoryTooLong)
    } else {
        None
    }
}

/// Checks that the history is neither empty nor too long.
pub fn check_history(history: &[ConversationMessage]) -> (res: Result<(), ConversationError>)
    ensures
        res is Ok <==> history_problem(history@) is None,
        res matches Err(e) ==> history_problem(history@) == Some(e),
{
    if history.len() == 0 {
        return Err(ConversationError::EmptyHistory);
    }
    if history.len() > MAX_MESSAGES {
        return Err(ConversationError::HistoryTooLong);
    }
    let mut total: usize = 0;
    let mut i: usize = 0;
    while i < history.len()
        invariant
            i <= history.len() <= MAX_MESSAGES,
            total == total_characters(history@.take(i as int)),
            total <= MAX_TOTAL_CHARACTERS,
        decreases history.len() - i,
    {
        proof {
            assert(history@.take(i + 1).drop_last() == history@.take(i as int));
            assert(history@.take(i + 1).last() == history@[i as int]);
        }
        let count = history[i].content.as_str().unicode_len();
        if count > MAX_TOTAL_CHARACTERS - total {
            proof {
                lemma_total_grows(history@, i + 1);
            }
            return Err(ConversationError::HistoryTooLong);
        }
        total = total + count;
        i = i + 1;
    }
    proof {
        assert(history@.take(history.len() as int) == history@);
    }
    Ok(())
}

proof fn lemma_total_grows(history: Seq<ConversationMessage>, k: int)
    requires
        0 <= k <= history.len(),
    ensures
        total_characters(history.take(k)) <= total_characters(history),
    decreases history.len() - k,
{
    if k < history.len() {
        lemma_total_grows(history, k + 1);
        assert(history.take(k + 1).drop_last() == history.take(k));
    } else {
        assert(history.take(k) == history);
    }
}

/// The model a conversation uses: the preferred one, trimmed, when the server
/// has it, otherwise the first model of the list; `None` when the list is empty.
pub open spec fn chosen_model(preferred: Seq<char>, models: Seq<Seq<char>>) -> Option<Seq<char>> {
    let p = trimmed(preferred);
    if models.len() == 0 {
        None
    } else if p.len() > 0 && models.contains(p) {
        Some(p)
    } else {
        Some(models[0])
    }
}

/// The preferred model as text; an absent preference is empty.
pub open spec fn preference_text(preferred: Option<&str>) -> Seq<char> {
    match preferred {
        Some(p) => p@,
        None => Seq::<char>::empty(),
    }
}

/// Picks the model for a conversation from the models the server has.
pub fn select_model(preferred: Option<&str>, models: &[String]) -> (res: Option<String>)
    ensures
        res matches Some(m) ==> chosen_model(preference_text(preferred), string_views(models@))
            == Some(m@),
        res is None <==> models.len() == 0,
{
    if models.len() == 0 {
        return None;
    }
    let wanted = match preferred {
        Some(p) => trim(p),
        None => String::new(),
    };
    if wanted.as_str().unicode_len() > 0 && is_model_available(wanted.as_str(), models) {
        Some(wanted)
    } else {
        Some(models[0].clone())
    }
}

/// The messages of the chat request: the system prompt, then the history.
pub open spec fn request_messages_spec(history: Seq<ConversationMessage>) -> Seq<(Seq<char>, Seq<char>)> {
    seq![("system"@, SYSTEM_PROMPT@)] + history.map_values(
        |m: ConversationMessage| (m.role@, m.content@),
    )
}

/// The role and content of each message.
pub open spec fn message_views(messages: Seq<ConversationMessage>) -> Seq<(Seq<char>, Seq<char>)> {
    messages.map_values(|m: ConversationMessage| (m.role@, m.content@))
}

/// The messages sent to the model: the system prompt first, then the history.
pub fn request_messages(history: &[ConversationMessage]) -> (res: Vec<ConversationMessage>)
    ensures
        message_views(res@) == request_messages_spec(history@),
{
    let mut res: Vec<ConversationMessage> = Vec::new();
    res.push(
        ConversationMessage {
            role: String::from_str("system"),
            content: String::from_str(SYSTEM_PROMPT),
        },
    );
    let mut i: usize = 0;
    while i < history.len()
        invariant
            i <= history.len(),
            res@.len() == i + 1,
            res@[0].role@ == "system"@,
            res@[0].content@ == SYSTEM_PROMPT@,
            forall|k: int|
                0 <= k < i ==> (#[trigger] res@[k + 1]).role@ == history@[k].role@
                    && res@[k + 1].content@ == history@[k].content@,
        decreases history.len() - i,
    {
        res.push(
            ConversationMessage {
                role: history[i].role.clone(),
                content: history[i].content.clone(),
            },
        );
        i = i + 1;
    }
    proof {
        let l = message_views(res@);
        let r = request_messages_spec(history@);
        assert forall|k: int| 0 <= k < l.len() implies l[k] == r[k] by {
            if k > 0 {
                assert(res@[(k - 1) + 1].role@ == history@[k - 1].role@);
            }
        }
        assert(l =~= r);
    }
    res
}


/// The index of the first newline in `s`, or `-1` when there is none.
pub open spec fn first_newline(s: Seq<char>) -> int
    decreases s.len(),
{
    if s.len() == 0 {
        -1
    } else if s[0] == '\n' {
        0
    } else {
        let k = first_newline(s.drop_first());
        if k < 0 {
            -1
        } else {
            k + 1
        }
    }
}

/// `first_newline` is the index of the first newline, or -1 when there is none.
pub proof fn lemma_first_newline(s: Seq<char>)
    ensures
        -1 <= first_newline(s) < s.len(),
        first_newline(s) >= 0 ==> s[first_newline(s)] == '\n',
        forall|j: int| 0 <= j < first_newline(s) ==> s[j] != '\n',
        first_newline(s) < 0 ==> forall|j: int| 0 <= j < s.len() ==> s[j] != '\n',
    decreases s.len(),
{
    if s.len() > 0 {
        lemma_first_newline(s.drop_first());
        let t = s.drop_first();
        assert forall|j: int| 1 <= j < s.len() implies s[j] == t[j - 1] by {}
    }
}

/// Taking complete lines from buffered stream text: the next line that is not
/// blank, trimmed, and the text left after its newline. Blank lines are
/// consumed and skipped; without a further complete line the result is `None`
/// with the text left after the last blank line consumed.
pub open spec fn drain_line(pending: Seq<char>) -> (Option<Seq<char>>, Seq<char>)
    decreases pending.len(),
{
    let k = first_newline(pending);
    if k < 0 {
        (None, pending)
    } else {
        let line = trimmed(pending.take(k));
        let rest = pending.skip(k + 1);
        if line.len() == 0 {
            proof {
                lemma_first_newline(pending);
            }
            drain_line(rest)
        } else {
            (Some(line), rest)
        }
    }
}

/// One decoded line of the reply stream: the model's error, if any, the
/// content of its message, if it has one, and whether it marks the end.
#[derive(Debug)]
pub struct StreamLine {
    pub error: Option<String>,
    pub content: Option<String>,
    pub done: bool,
}

/// What one line of the stream gave: text to show and add to the answer, and
/// whether the model marked the reply as done.
#[derive(Debug)]
pub struct StreamStep {
    pub chunk: Option<String>,
    pub done: bool,
}

/// The text a stream line adds to the answer: its content when not empty.
pub open spec fn line_chunk(line: StreamLine) -> Option<Seq<char>> {
    match line.content {
        Some(c) => if c@.len() > 0 {
            Some(c@)
        } else {
            None
        },
        None => None,
    }
}

/// The state of a streamed reply: text received but not yet split into lines,
/// the answer gathered so far, and whether line reading is paused because the
/// model marked the reply done.
pub struct ReplyStream {
    pending: Vec<char>,
    answer: Vec<char>,
    paused: bool,
}

/// The abstract state of a streamed reply: once a line marks the reply done,
/// no further line is taken until more data arrives.
pub struct ReplyStreamView {
    pub pending: Seq<char>,
    pub answer: Seq<char>,
    pub paused: bool,
}

impl View for ReplyStream {
    type V = ReplyStreamView;

    closed spec fn view(&self) -> ReplyStreamView {
        ReplyStreamView { pending: self.pending@, answer: self.answer@, paused: self.paused }
    }
}

/// The option's content taken by its view.
pub open spec fn option_view(o: Option<String>) -> Option<Seq<char>> {
    match o {
        Some(s) => Some(s@),
        None => None,
    }
}

impl ReplyStream {
    /// A stream with nothing received.
    pub fn new() -> (res: ReplyStream)
        ensures
            res@.pending == Seq::<char>::empty(),
            res@.answer == Seq::<char>::empty(),
            !res@.paused,
    {
        ReplyStream { pending: Vec::new(), answer: Vec::new(), paused: false }
    }

    /// Buffers text received from the server; line reading resumes.
    pub fn push_text(&mut self, text: &str)
        ensures
            final(self)@.pending == old(self)@.pending + text@,
            final(self)@.answer == old(self)@.answer,
            !final(self)@.paused,
    {
        let cs = chars_of(text);
        extend_chars(&mut self.pending, &cs);
        self.paused = false;
    }

    /// Buffers bytes received from the server, decoded as UTF-8 with invalid
    /// sequences replaced; line reading resumes.
    pub fn push_bytes(&mut self, bytes: &[u8])
        ensures
            final(self)@.pending == old(self)@.pending + utf8_lossy(bytes@),
            final(self)@.answer == old(self)@.answer,
            !final(self)@.paused,
    {
        let text = decode_utf8_lossy(bytes);
        self.push_text(text.as_str());
    }

    /// Takes the next complete line that is not blank, trimmed; none while
    /// line reading is paused.
    pub fn next_line(&mut self) -> (res: Option<String>)
        ensures
            old(self)@.paused ==> res is None && final(self)@ == old(self)@,
            !old(self)@.paused ==> (option_view(res), final(self)@.pending) == drain_line(
                old(self)@.pending,
            ),
            final(self)@.answer == old(self)@.answer,
            final(self)@.paused == old(self)@.paused,
    {
        if self.paused {
            return None;
        }
        loop
            invariant
                drain_line(self@.pending) == drain_line(old(self)@.pending),
                self@.answer == old(self)@.answer,
                self@.paused == old(self)@.paused,
                !old(self)@.paused,
            decreases self@.pending.len(),
        {
            let ghost before = self@.pending;
            proof {
                lemma_first_newline(before);
            }
            let n = self.pending.len();
            let mut k: usize = 0;
            while k < n && self.pending[k] != '\n'
                invariant
                    k <= n == self.pending@.len(),
                    self@.pending == before,
                    forall|j: int| 0 <= j < k ==> self.pending@[j] != '\n',
                decreases n - k,
            {
                k = k + 1;
            }
            if k == n {
                return None;
            }
            proof {
                assert(first_newline(before) == k);
            }
            let line = trim_chars(&slice_chars(&self.pending, 0, k));
            self.pending = slice_chars(&self.pending, k + 1, n);
            proof {
                assert(before.take(k as int) == before.subrange(0, k as int));
                assert(before.skip(k + 1) == before.subrange(k + 1, n as int));
            }
            if line.len() > 0 {
                return Some(string_from_chars(&line));
            }
        }
    }

    /// Applies one line of the stream; `parsed` is the line decoded, or the
    /// decoder's error message. A line that marks the reply done pauses line
    /// reading until more data arrives.
    pub fn accept_line(&mut self, parsed: Result<StreamLine, String>) -> (res: Result<
        StreamStep,
        ConversationError,
    >)
        ensures
            final(self)@.pending == old(self)@.pending,
            final(self)@.paused == (old(self)@.paused || (parsed matches Ok(line) && line.error is None
                && line.done)),
            match parsed {
                Err(e) => res == Err::<StreamStep, ConversationError>(
                    ConversationError::StreamDecode(e),
                ) && final(self)@.answer == old(self)@.answer,
                Ok(line) => match line.error {
                    Some(e) => res == Err::<StreamStep, ConversationError>(
                        ConversationError::Model(e),
                    ) && final(self)@.answer == old(self)@.answer,
                    None => (res matches Ok(step) && step.done == line.done && option_view(
                        step.chunk,
                    ) == line_chunk(line)) && final(self)@.answer == match line_chunk(line) {
                        Some(c) => old(self)@.answer + c,
                        None => old(self)@.answer,
                    },
                },
            },
    {
        match parsed {
            Err(e) => Err(ConversationError::StreamDecode(e)),
            Ok(line) => {
                let res = self.apply_line(line);
                if let Ok(step) = &res {
                    if step.done {
                        self.paused = true;
                    }
                }
                res
            },
        }
    }

    /// Applies one decoded line: the model's error, or the text it adds.
    fn apply_line(&mut self, line: StreamLine) -> (res: Result<StreamStep, ConversationError>)
        ensures
            final(self)@.pending == old(self)@.pending,
            final(self)@.paused == old(self)@.paused,
            match line.error {
                Some(e) => res == Err::<StreamStep, ConversationError>(ConversationError::Model(e))
                    && final(self)@.answer == old(self)@.answer,
                None => (res matches Ok(step) && step.done == line.done && option_view(step.chunk)
                    == line_chunk(line)) && final(self)@.answer == match line_chunk(line) {
                    Some(c) => old(self)@.answer + c,
                    None => old(self)@.answer,
                },
            },
    {
        let ghost l = line;
        let StreamLine { error, content, done } = line;
        match error {
            Some(e) => Err(ConversationError::Model(e)),
            None => {
                let chunk = match content {
                    Some(c) => {
                        if c.as_str().unicode_len() > 0 {
                            let cs = chars_of(c.as_str());
                            extend_chars(&mut self.answer, &cs);
                            Some(c)
                        } else {
                            None
                        }
                    },
                    None => None,
                };
                Ok(StreamStep { chunk, done })
            },
        }
    }

    /// The text left in the buffer when the stream ends, trimmed, when it is
    /// not blank: it still has to be decoded as a last message.
    pub fn final_payload(&self) -> (res: Option<String>)
        ensures
            option_view(res) == (if trimmed(self@.pending).len() > 0 {
                Some(trimmed(self@.pending))
            } else {
                None
            }),
    {
        let t = trim_chars(&self.pending);
        if t.len() > 0 {
            Some(string_from_chars(&t))
        } else {
            None
        }
    }

    /// Applies the last, unterminated message of the stream. Its end mark is
    /// of no further use, so only the text it adds is returned.
    pub fn accept_final(&mut self, parsed: Result<StreamLine, String>) -> (res: Result<
        Option<String>,
        ConversationError,
    >)
        ensures
            final(self)@.pending == old(self)@.pending,
            final(self)@.paused == old(self)@.paused,
            match parsed {
                Err(e) => res == Err::<Option<String>, ConversationError>(
                    ConversationError::StreamEndDecode(e),
                ) && final(self)@.answer == old(self)@.answer,
                Ok(line) => match line.error {
                    Some(e) => res == Err::<Option<String>, ConversationError>(
                        ConversationError::Model(e),
                    ) && final(self)@.answer == old(self)@.answer,
                    None => (res matches Ok(chunk) && option_view(chunk) == line_chunk(line))
                        && final(self)@.answer == match line_chunk(line) {
                        Some(c) => old(self)@.answer + c,
                        None => old(self)@.answer,
                    },
                },
            },
    {
        match parsed {
            Err(e) => Err(ConversationError::StreamEndDecode(e)),
            Ok(line) => match self.apply_line(line) {
                Ok(step) => Ok(step.chunk),
                Err(e) => Err(e),
            },
        }
    }

    /// The finished reply: the gathered answer, trimmed, which must not be empty.
    pub fn finish(&self, model: String) -> (res: Result<ConversationReply, ConversationError>)
        ensures
            trimmed(self@.answer).len() == 0 ==> res == Err::<ConversationReply, ConversationError>(
                ConversationError::EmptyReply,
            ),
            trimmed(self@.answer).len() > 0 ==> (res matches Ok(r) && r.text@ == trimmed(
                self@.answer,
            ) && r.model == model),
    {
        let t = trim_chars(&self.answer);
        if t.len() == 0 {
            Err(ConversationError::EmptyReply)
        } else {
            Ok(ConversationReply { text: string_from_chars(&t), model })
        }
    }
}


/// The model chosen for a conversation is always one the server has.
pub proof fn lemma_chosen_model_installed(preferred: Seq<char>, models: Seq<Seq<char>>)
    ensures
        chosen_model(preferred, models) matches Some(m) ==> models.contains(m),
{
    if models.len() > 0 {
        assert(models[0] == models[0]);
        assert(models.contains(models[0]));
    }
}

/// Every line taken from the stream is non-blank, trimmed and free of
/// newlines, and what is left is a suffix of the buffer.
pub proof fn lemma_drained_line_shape(pending: Seq<char>)
    ensures
        drain_line(pending).0 matches Some(line) ==> line.len() > 0 && is_trimmed(line) && !line.contains(
            '\n',
        ),
        drain_line(pending).1.len() <= pending.len(),
    decreases pending.len(),
{
    lemma_first_newline(pending);
    let k = first_newline(pending);
    if k >= 0 {
        let line = trimmed(pending.take(k));
        let rest = pending.skip(k + 1);
        if line.len() == 0 {
            lemma_drained_line_shape(rest);
        } else {
            lemma_trimmed_is_trimmed(pending.take(k));
            lemma_trimmed_piece(pending.take(k));
            let (i, j) = choose|i: int, j: int| 0 <= i <= j <= pending.take(k).len() && #[trigger] pending.take(k).subrange(i, j) == line;
            if line.contains('\n') {
                let w = choose|w: int| 0 <= w < line.len() && line[w] == '\n';
                assert(line[w] == pending[i + w]);
            }
        }
    }
}

/// A history passes the checks exactly when it holds one to
/// `MAX_MESSAGES` messages with at most `MAX_TOTAL_CHARACTERS` characters.
pub proof fn lemma_history_limits(history: Seq<ConversationMessage>)
    ensures
        history_problem(history) is None <==> (1 <= history.len() <= MAX_MESSAGES
            && total_characters(history) <= MAX_TOTAL_CHARACTERS),
{
}


/// Taking a line consumes text.
pub proof fn lemma_drain_shrinks(pending: Seq<char>)
    ensures
        drain_line(pending).0 is Some ==> drain_line(pending).1.len() < pending.len(),
    decreases pending.len(),
{
    lemma_first_newline(pending);
    let k = first_newline(pending);
    if k >= 0 && trimmed(pending.take(k)).len() == 0 {
        lemma_drain_shrinks(pending.skip(k + 1));
    }
}

/// All complete, non-blank lines of buffered stream text, taken one after
/// another, and the text left over.
pub open spec fn stream_lines(pending: Seq<char>) -> (Seq<Seq<char>>, Seq<char>)
    decreases pending.len(),
{
    let (line, rest) = drain_line(pending);
    match line {
        None => (Seq::<Seq<char>>::empty(), rest),
        Some(l) => {
            proof {
                lemma_drain_shrinks(pending);
            }
            let (more, left) = stream_lines(rest);
            (seq![l] + more, left)
        },
    }
}

proof fn lemma_first_newline_append(p: Seq<char>, t: Seq<char>)
    requires
        first_newline(p) >= 0,
    ensures
        first_newline(p + t) == first_newline(p),
    decreases p.len(),
{
    if p[0] != '\n' {
        lemma_first_newline_append(p.drop_first(), t);
        assert((p + t).drop_first() == p.drop_first() + t);
    }
}

proof fn lemma_drain_append(p: Seq<char>, t: Seq<char>)
    ensures
        drain_line(p + t) == match drain_line(p) {
            (Some(l), r) => (Some(l), r + t),
            (None, r) => drain_line(r + t),
        },
    decreases p.len(),
{
    lemma_first_newline(p);
    let k = first_newline(p);
    if k >= 0 {
        lemma_first_newline_append(p, t);
        assert((p + t).take(k) == p.take(k));
        assert((p + t).skip(k + 1) == p.skip(k + 1) + t);
        if trimmed(p.take(k)).len() == 0 {
            lemma_drain_append(p.skip(k + 1), t);
        }
    }
}

/// Text can arrive in pieces of any size: the lines taken from `p + t` are
/// the lines taken from `p` followed by those taken once `t` arrives after
/// what `p` left over.
pub proof fn lemma_stream_lines_append(p: Seq<char>, t: Seq<char>)
    ensures
        stream_lines(p + t) == ({
            let (first, left) = stream_lines(p);
            let (second, rest) = stream_lines(left + t);
            (first + second, rest)
        }),
    decreases p.len(),
{
    lemma_drain_append(p, t);
    let (line, r) = drain_line(p);
    match line {
        None => {
            assert(Seq::<Seq<char>>::empty() + stream_lines(r + t).0 == stream_lines(r + t).0);
        },
        Some(l) => {
            lemma_drain_shrinks(p);
            lemma_stream_lines_append(r, t);
            let (more, left) = stream_lines(r);
            let (second, rest) = stream_lines(left + t);
            assert(seq![l] + (more + second) == (seq![l] + more) + second);
        },
    }
}

/// The voice conversation request is the system prompt followed by the whole
/// history, message for message: one more message than the history, the
/// prompt first, and message `k + 1` with the role and content of history
/// message `k`. Adding a message to the history adds exactly that message at
/// the end of the request.
pub proof fn lemma_request_carries_history(
    history: Seq<ConversationMessage>,
    next: ConversationMessage,
)
    ensures
        request_messages_spec(history).len() == history.len() + 1,
        request_messages_spec(history)[0] == ("system"@, SYSTEM_PROMPT@),
        forall|k: int|
            0 <= k < history.len() ==> #[trigger] request_messages_spec(history)[k + 1] == (
                history[k].role@,
                history[k].content@,
            ),
        request_messages_spec(history.push(next)) == request_messages_spec(history).push(
            (next.role@, next.content@),
        ),
{
    let r = request_messages_spec(history);
    assert forall|k: int| 0 <= k < history.len() implies #[trigger] r[k + 1] == (
        history[k].role@,
        history[k].content@,
    ) by {}
    assert(request_messages_spec(history.push(next)) =~= r.push((next.role@, next.content@)));
}

/// What a stream line carries: its content, or nothing.
pub open spec fn line_content(line: StreamLine) -> Seq<char> {
    match line.content {
        Some(c) => c@,
        None => Seq::<char>::empty(),
    }
}

/// All the lines' contents, one after the other.
pub open spec fn all_contents(lines: Seq<StreamLine>) -> Seq<char>
    decreases lines.len(),
{
    if lines.len() == 0 {
        Seq::<char>::empty()
    } else {
        all_contents(lines.drop_last()) + line_content(lines.last())
    }
}

/// The answer `accept_line` gathers from error-free lines, in order: each
/// line's chunk appended.
pub open spec fn gathered_answer(lines: Seq<StreamLine>) -> Seq<char>
    decreases lines.len(),
{
    if lines.len() == 0 {
        Seq::<char>::empty()
    } else {
        gathered_answer(lines.drop_last()) + match line_chunk(lines.last()) {
            Some(c) => c,
            None => Seq::<char>::empty(),
        }
    }
}

/// Nothing the model sends is lost or changed: a line's chunk is its content
/// exactly when that content is not empty (whitespace included), and the answer
/// gathered from a run of lines is all their contents one after the other.
pub proof fn lemma_answer_is_all_contents(line: StreamLine, lines: Seq<StreamLine>)
    ensures
        (line.content matches Some(c) && c@.len() > 0) ==> line_chunk(line) == Some(line_content(line)),
        line_chunk(line) matches Some(c) ==> c == line_content(line) && c.len() > 0,
        gathered_answer(lines) == all_contents(lines),
    decreases lines.len(),
{
    if lines.len() > 0 {
        lemma_answer_is_all_contents(line, lines.drop_last());
        let l = lines.last();
        if line_chunk(l) is None {
            assert(line_content(l) =~= Seq::<char>::empty());
        }
        assert(gathered_answer(lines.drop_last()) + Seq::<char>::empty() =~= gathered_answer(lines.drop_last()));
    }
}

} // verus!
