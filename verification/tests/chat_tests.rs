use jarvis_core::chat::{
    chat_request_messages, check_chat_request, check_model_installed, finish_answer, ChatError,
    ChatMessage, TERRA_SYSTEM_PROMPT,
};
use jarvis_core::conversation::{MAX_MESSAGES, MAX_TOTAL_CHARACTERS};

fn msg(role: &str, content: &str) -> ChatMessage {
    ChatMessage { role: role.to_string(), content: content.to_string() }
}

#[test]
fn model_is_trimmed_and_required() {
    let dialog = vec![msg("user", "Привет")];
    assert_eq!(check_chat_request("  qwen3:8b ", &dialog).unwrap(), "qwen3:8b");
    let err = check_chat_request("   ", &dialog).unwrap_err();
    assert!(matches!(err, ChatError::NoModelSelected));
    assert_eq!(err.message(), "Сначала выбери установленную локальную модель.");
}

#[test]
fn empty_and_long_dialogs_are_refused() {
    let err = check_chat_request("m", &[]).unwrap_err();
    assert_eq!(err.message(), "В диалоге пока нет сообщения.");
    let long: Vec<_> = (0..=MAX_MESSAGES).map(|_| msg("user", "a")).collect();
    let err = check_chat_request("m", &long).unwrap_err();
    assert!(matches!(err, ChatError::DialogTooLong));
    assert_eq!(err.message(), "Диалог стал слишком длинным. Очисти его и начни новый.");
}

#[test]
fn only_user_and_assistant_roles() {
    let dialog = vec![msg("user", "a"), msg("system", "b")];
    let err = check_chat_request("m", &dialog).unwrap_err();
    assert!(matches!(err, ChatError::UnsupportedRole));
    assert_eq!(err.message(), "В диалоге обнаружена неподдерживаемая роль сообщения.");
    assert!(check_chat_request("m", &[msg("assistant", "x"), msg("user", "y")]).is_ok());
}

#[test]
fn first_violation_decides() {
    let full = "ж".repeat(MAX_TOTAL_CHARACTERS);
    // the count overflows at the second message, before the bad role is seen
    let dialog = vec![msg("user", &full), msg("user", "x"), msg("robot", "y")];
    assert!(matches!(check_chat_request("m", &dialog), Err(ChatError::DialogTooLong)));
    // the bad role comes first
    let dialog = vec![msg("robot", &full), msg("user", "x")];
    assert!(matches!(check_chat_request("m", &dialog), Err(ChatError::UnsupportedRole)));
    assert!(check_chat_request("m", &[msg("user", &full)]).is_ok());
}

#[test]
fn model_must_be_installed() {
    let models = vec!["a".to_string()];
    assert!(check_model_installed("a", &models).is_ok());
    let err = check_model_installed("b", &models).unwrap_err();
    assert_eq!(err.message(), "Выбранная модель не найдена в Ollama. Обнови список моделей.");
}

#[test]
fn chat_request_starts_with_system_prompt() {
    let req = chat_request_messages(&[msg("user", "hi")]);
    assert_eq!(req.len(), 2);
    assert_eq!(req[0].role, "system");
    assert_eq!(req[0].content, TERRA_SYSTEM_PROMPT);
    assert_eq!(req[1].role, "user");
    assert_eq!(req[1].content, "hi");
}

#[test]
fn answer_is_trimmed_and_not_empty() {
    assert_eq!(finish_answer("  Ответ \n").unwrap(), "Ответ");
    let err = finish_answer(" \n ").unwrap_err();
    assert!(matches!(err, ChatError::EmptyAnswer));
    assert_eq!(err.message(), "Локальная модель вернула пустой ответ.");
}

#[test]
fn chat_error_messages_carry_details() {
    assert_eq!(
        ChatError::Status { status: "404 Not Found".into(), details: "no".into() }.message(),
        "Локальная модель вернула HTTP 404 Not Found. no"
    );
    assert_eq!(ChatError::Request("t".into()).message(), "Ошибка запроса к локальной модели: t");
    assert_eq!(
        ChatError::AnswerDecode("d".into()).message(),
        "Не удалось прочитать ответ локальной модели: d"
    );
    assert_eq!(
        ChatError::ModelsStatus("500".into()).message(),
        "Локальный сервер моделей вернул HTTP 500 при получении списка моделей."
    );
    assert_eq!(
        ChatError::ModelsDecode("e".into()).message(),
        "Не удалось прочитать список локальных моделей: e"
    );
    assert_eq!(ChatError::Client("c".into()).message(), "Не удалось создать клиент локальной модели: c");
    assert_eq!(
        ChatError::Connect("x".into()).message(),
        "Не удалось подключиться к Ollama на 127.0.0.1:11434. Запусти Ollama и установи локальную модель. (x)"
    );
}
