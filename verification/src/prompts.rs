//! Prompt templates sent to the language model. Placeholders in braces
//! are replaced before sending.
use vstd::prelude::*;

verus! {

/// The system message of every chat request.
pub const SYSTEM_PROMPT: &'static str = "You are an assistant that helps with subtitle translation.";

/// Translating one sentence with the sentences around it as context.
pub const SPLIT_TEXT_WITH_CONTEXT_PROMPT: &'static str = "Below is a text that needs to be translated \
    from {origin_lang} to {target_lang}.\n\nContext (previous sentences for reference, do NOT translate these):\n{prev_context}\n\nText to translate:\n{text}\n\nContext (following sentences for reference, do NOT translate these):\n{next_context}\n\nRequirements:\n1. Translate only the \"Text to translate\" section\n2. Use the context to ensure consistency and accuracy\n3. Return ONLY the translated text, nothing else\n4. Keep the translation natural and fluent\n5. Do not add any explanations or notes";

/// Splitting a long text into shorter sentences.
pub const SPLIT_LONG_TEXT_BY_MEANING_PROMPT: &'static str = "Please split the following text into shorter sentences. Each sentence should be a complete thought and no longer than {max_length} characters.\n\nText: {text}\n\nRequirements:\n1. Split at natural sentence boundaries\n2. Each resulting sentence must be a complete thought\n3. Return one sentence per line\n4. Do not add numbering or any other formatting\n5. Preserve all original text without modification";

/// Translating a video's title and description.
pub const TRANSLATE_VIDEO_TITLE_AND_DESCRIPTION_PROMPT: &'static str = "Translate the following video title and description from {origin_lang} to {target_lang}.\n\nTitle: {title}\n\nDescription: {description}\n\nReturn the translated title and description separated by \"####\". Format:\ntranslated_title####translated_description";

/// Choosing the emotion of one subtitle line given its neighbours.
pub const EMOTION_DETECTION_PROMPT: &'static str = "Classify the emotion of the current subtitle line for expressive speech synthesis.\n\nPrevious line: {prev}\nCurrent line: {text}\nNext line: {next}\n\nAnswer with exactly one of these tags and nothing else:\n[neutral] [excited] [angry] [sad] [whisper] [laughing] [serious] [sarcastic] [fearful] [tender] [professional broadcast tone]";

} // verus!
