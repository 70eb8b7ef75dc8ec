//! The prompt the local interpreter model is given. Rendering it with the
//! model's own chat template belongs to the model runtime; this is the
//! instruction it carries, and the ChatML form used when no template can be
//! applied.
use vstd::prelude::*;

verus! {

/// The system instruction. An empty `source` means detection was not
/// confident about the window, and then no source language is named: told
/// the wrong one, a model rewrites the sentence into it instead of
/// translating what was said.
pub open spec fn interpreter_instruction_spec(source: Seq<char>, target: Seq<char>) -> Seq<char> {
    let from = if source.len() == 0 {
        Seq::<char>::empty()
    } else {
        "from "@ + source + " "@
    };
    "You are a professional simultaneous interpreter. Translate the user's sentence "@ + from + "to "@
        + target + ". If it is already in "@ + target + ", repeat it unchanged. Output only the translation, nothing else."@
}

pub fn interpreter_instruction(source: &str, target: &str) -> (s: String)
    ensures
        s@ == interpreter_instruction_spec(source@, target@),
{
    proof {
        reveal_strlit("You are a professional simultaneous interpreter. Translate the user's sentence ");
        reveal_strlit("from ");
        reveal_strlit(" ");
        reveal_strlit("to ");
        reveal_strlit(". If it is already in ");
        reveal_strlit(", repeat it unchanged. Output only the translation, nothing else.");
    }
    let mut s = String::from_str("You are a professional simultaneous interpreter. Translate the user's sentence ");
    if !source.is_empty() {
        s.append("from ");
        s.append(source);
        s.append(" ");
    }
    s.append("to ");
    s.append(target);
    s.append(". If it is already in ");
    s.append(target);
    s.append(", repeat it unchanged. Output only the translation, nothing else.");
    s
}

/// A system message and a user message in ChatML, opening the assistant's
/// turn.
pub open spec fn chatml_prompt_spec(system: Seq<char>, sentence: Seq<char>) -> Seq<char> {
    "<|im_start|>system\n"@ + system + "<|im_end|>\n<|im_start|>user\n"@ + sentence
        + "<|im_end|>\n<|im_start|>assistant\n"@
}

pub fn chatml_prompt(system: &str, sentence: &str) -> (s: String)
    ensures
        s@ == chatml_prompt_spec(system@, sentence@),
{
    proof {
        reveal_strlit("<|im_start|>system\n");
        reveal_strlit("<|im_end|>\n<|im_start|>user\n");
        reveal_strlit("<|im_end|>\n<|im_start|>assistant\n");
    }
    let mut s = String::from_str("<|im_start|>system\n");
    s.append(system);
    s.append("<|im_end|>\n<|im_start|>user\n");
    s.append(sentence);
    s.append("<|im_end|>\n<|im_start|>assistant\n");
    s
}

} // verus!
