use live_poly_trans::interpreter::{chatml_prompt, interpreter_instruction};

#[test]
fn instruction_names_a_confident_source() {
    assert_eq!(
        interpreter_instruction("Japanese", "English"),
        "You are a professional simultaneous interpreter. Translate the user's sentence from Japanese to English. If it is already in English, repeat it unchanged. Output only the translation, nothing else."
    );
}

#[test]
fn instruction_leaves_an_unknown_source_unnamed() {
    assert_eq!(
        interpreter_instruction("", "Japanese"),
        "You are a professional simultaneous interpreter. Translate the user's sentence to Japanese. If it is already in Japanese, repeat it unchanged. Output only the translation, nothing else."
    );
}

#[test]
fn chatml_wraps_system_and_user_turns() {
    assert_eq!(
        chatml_prompt("sys", "こんにちは"),
        "<|im_start|>system\nsys<|im_end|>\n<|im_start|>user\nこんにちは<|im_end|>\n<|im_start|>assistant\n"
    );
}
