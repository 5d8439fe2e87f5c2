use jarvis_core::conversation::{
    check_history, request_messages, select_model, ConversationError, ConversationMessage,
    ReplyStream, StreamLine, MAX_MESSAGES, MAX_TOTAL_CHARACTERS, SYSTEM_PROMPT,
};

fn msg(role: &str, content: &str) -> ConversationMessage {
    ConversationMessage { role: role.to_string(), content: content.to_string() }
}

fn line(error: Option<&str>, content: Option<&str>, done: bool) -> StreamLine {
    StreamLine {
        error: error.map(String::from),
        content: content.map(String::from),
        done,
    }
}

#[test]
fn empty_history_is_refused() {
    let err = check_history(&[]).unwrap_err();
    assert!(matches!(err, ConversationError::EmptyHistory));
    assert_eq!(err.message(), "В голосовом диалоге пока нет сообщения.");
}

#[test]
fn history_length_limits() {
    let many: Vec<_> = (0..MAX_MESSAGES).map(|_| msg("user", "привет")).collect();
    assert!(check_history(&many).is_ok());
    let too_many: Vec<_> = (0..=MAX_MESSAGES).map(|_| msg("user", "привет")).collect();
    assert!(matches!(check_history(&too_many), Err(ConversationError::HistoryTooLong)));
}

#[test]
fn history_character_limit_counts_characters_not_bytes() {
    let full = "я".repeat(MAX_TOTAL_CHARACTERS);
    assert!(check_history(&[msg("user", &full)]).is_ok());
    let over = vec![msg("user", &full), msg("assistant", "!")];
    let err = check_history(&over).unwrap_err();
    assert!(matches!(err, ConversationError::HistoryTooLong));
    assert_eq!(err.message(), "Голосовой диалог стал слишком длинным. Начни новый разговор.");
}

#[test]
fn preferred_model_is_used_when_installed() {
    let models = vec!["a:1".to_string(), "b:2".to_string()];
    assert_eq!(select_model(Some("  b:2 "), &models).as_deref(), Some("b:2"));
    assert_eq!(select_model(Some("c:3"), &models).as_deref(), Some("a:1"));
    assert_eq!(select_model(Some("   "), &models).as_deref(), Some("a:1"));
    assert_eq!(select_model(None, &models).as_deref(), Some("a:1"));
    assert_eq!(select_model(Some("a:1"), &[]), None);
}

#[test]
fn request_starts_with_system_prompt() {
    let history = vec![msg("user", "Привет"), msg("assistant", "Здравствуй")];
    let req = request_messages(&history);
    assert_eq!(req.len(), 3);
    assert_eq!(req[0].role, "system");
    assert_eq!(req[0].content, SYSTEM_PROMPT);
    assert_eq!(req[1].content, "Привет");
    assert_eq!(req[2].role, "assistant");
}

#[test]
fn stream_lines_are_split_trimmed_and_blank_ones_skipped() {
    let mut stream = ReplyStream::new();
    stream.push_text("  {\"a\":1}  \n\n   \n{\"b\"");
    assert_eq!(stream.next_line().as_deref(), Some("{\"a\":1}"));
    assert_eq!(stream.next_line(), None);
    stream.push_bytes(b":2}\n");
    assert_eq!(stream.next_line().as_deref(), Some("{\"b\":2}"));
    assert_eq!(stream.next_line(), None);
    assert_eq!(stream.final_payload(), None);
}

#[test]
fn stream_bytes_split_inside_a_character_are_replaced() {
    let mut stream = ReplyStream::new();
    let bytes = "ы\n".as_bytes();
    stream.push_bytes(&bytes[..1]);
    stream.push_bytes(&bytes[1..]);
    assert_eq!(stream.next_line().as_deref(), Some("\u{fffd}\u{fffd}"));
}

#[test]
fn answer_gathers_non_empty_chunks() {
    let mut stream = ReplyStream::new();
    let step = stream.accept_line(Ok(line(None, Some("При"), false))).unwrap();
    assert_eq!(step.chunk.as_deref(), Some("При"));
    assert!(!step.done);
    let step = stream.accept_line(Ok(line(None, Some(""), false))).unwrap();
    assert_eq!(step.chunk, None);
    let step = stream.accept_line(Ok(line(None, None, true))).unwrap();
    assert!(step.done);
    stream.accept_line(Ok(line(None, Some("вет "), false))).unwrap();
    let reply = stream.finish("qwen3:8b".to_string()).unwrap();
    assert_eq!(reply.text, "Привет");
    assert_eq!(reply.model, "qwen3:8b");
}

#[test]
fn model_error_and_bad_line_are_errors() {
    let mut stream = ReplyStream::new();
    let err = stream.accept_line(Ok(line(Some("boom"), Some("x"), false))).unwrap_err();
    assert_eq!(err.message(), "Ollama вернула ошибку: boom");
    let err = stream.accept_line(Err("expected value".to_string())).unwrap_err();
    assert_eq!(err.message(), "Не удалось прочитать поток Ollama: expected value");
    assert!(matches!(stream.finish("m".to_string()), Err(ConversationError::EmptyReply)));
}

#[test]
fn unterminated_last_message_is_applied() {
    let mut stream = ReplyStream::new();
    stream.push_text("{\"message\":1}  ");
    assert_eq!(stream.next_line(), None);
    assert_eq!(stream.final_payload().as_deref(), Some("{\"message\":1}"));
    let chunk = stream.accept_final(Ok(line(None, Some("ответ"), true))).unwrap();
    assert_eq!(chunk.as_deref(), Some("ответ"));
    let err = stream.accept_final(Err("eof".to_string())).unwrap_err();
    assert_eq!(err.message(), "Не удалось прочитать завершение потока Ollama: eof");
    assert_eq!(stream.finish("m".to_string()).unwrap().text, "ответ");
}

#[test]
fn error_messages_carry_details() {
    let e = ConversationError::Status { status: "500 Internal Server Error".into(), details: "oops".into() };
    assert_eq!(e.message(), "Ollama вернула HTTP 500 Internal Server Error. oops");
    assert_eq!(
        ConversationError::Connect("refused".into()).message(),
        "Не удалось подключиться к Ollama на 127.0.0.1:11434. Запусти Ollama и установи локальную модель. (refused)"
    );
    assert_eq!(ConversationError::NoModels.message(), "Ollama доступна, но локальные модели не найдены.");
    assert_eq!(ConversationError::Stream("x".into()).message(), "Ошибка потока Ollama: x");
    assert_eq!(ConversationError::Client("y".into()).message(), "Не удалось создать клиент Ollama: y");
    assert_eq!(
        ConversationError::ModelsStatus("404 Not Found".into()).message(),
        "Ollama вернула HTTP 404 Not Found при получении списка моделей."
    );
    assert_eq!(
        ConversationError::ModelsDecode("z".into()).message(),
        "Не удалось прочитать список моделей Ollama: z"
    );
    assert_eq!(ConversationError::Request("r".into()).message(), "Ошибка запроса к локальной модели: r");
    assert_eq!(ConversationError::EmptyReply.message(), "Локальная модель вернула пустой ответ.");
}

fn all_lines(chunks: &[&str]) -> Vec<String> {
    let mut stream = ReplyStream::new();
    let mut lines = Vec::new();
    for chunk in chunks {
        stream.push_text(chunk);
        while let Some(line) = stream.next_line() {
            lines.push(line);
        }
    }
    lines
}

#[test]
fn lines_do_not_depend_on_chunking() {
    let text = "{\"a\":1}\n\n  {\"b\":2}\r\n{\"c\":3}\n{\"d\"";
    let whole = all_lines(&[text]);
    assert_eq!(whole, vec!["{\"a\":1}", "{\"b\":2}", "{\"c\":3}"]);
    for cut in 0..text.len() {
        if text.is_char_boundary(cut) {
            assert_eq!(all_lines(&[&text[..cut], &text[cut..]]), whole);
        }
    }
}

#[test]
fn line_reading_pauses_after_done_until_more_data() {
    let mut stream = ReplyStream::new();
    stream.push_text("{\"a\":1}\n{\"b\":2}\n");
    assert_eq!(stream.next_line().as_deref(), Some("{\"a\":1}"));
    let step = stream.accept_line(Ok(line(None, Some("ok"), true))).unwrap();
    assert!(step.done);
    assert_eq!(stream.next_line(), None);
    assert_eq!(stream.next_line(), None);
    stream.push_bytes(b"{\"c\"");
    assert_eq!(stream.next_line().as_deref(), Some("{\"b\":2}"));
    assert_eq!(stream.next_line(), None);
    assert_eq!(stream.final_payload().as_deref(), Some("{\"c\""));
}

#[test]
fn a_failed_line_does_not_pause_reading() {
    let mut stream = ReplyStream::new();
    stream.push_text("x\ny\n");
    assert_eq!(stream.next_line().as_deref(), Some("x"));
    assert!(stream.accept_line(Ok(line(Some("boom"), None, true))).is_err());
    assert_eq!(stream.next_line().as_deref(), Some("y"));
}
