//! The prompts that ask a language model for a flock's or a repository's name,
//! description and keywords, and the JSON text taken from its answer.
use vstd::prelude::*;

use crate::git_url::{take_chars, take_chars_spec};
use crate::text::{
    chars_of, concat, lemma_encode_utf8_concat, string_of, trim, trim_end_matches,
    trim_end_matches_at, trim_start_matches, trim_start_matches_at, trim_at, utf8_len, utf8_size,
    slice_vec,
};

verus! {

/// The line that presents one skill: its name and the first 120 characters of its
/// description.
pub open spec fn skill_line(name: Seq<char>, description: Seq<char>) -> Seq<char> {
    "- "@ + name + ": "@ + take_chars_spec(description, 120) + "\n"@
}

/// The skill lines added after `acc` while the text stays within 2000 bytes; when the
/// next line would not fit, `- ...` ends the list.
pub open spec fn skill_listing(lines: Seq<Seq<char>>, acc: Seq<char>) -> Seq<char>
    decreases lines.len(),
{
    if lines.len() == 0 {
        acc
    } else if utf8_size(acc) + utf8_size(lines[0]) > 2000 {
        acc + "- ...\n"@
    } else {
        skill_listing(lines.drop_first(), acc + lines[0])
    }
}

/// The lines of the skills (name, description) of a flock.
pub open spec fn skill_lines(skills: Seq<(String, String)>) -> Seq<Seq<char>> {
    Seq::new(skills.len(), |i: int| skill_line(skills[i].0@, skills[i].1@))
}

/// The README part of a flock prompt: its first 2000 characters, when there is one.
pub open spec fn readme_section(readme: Option<Seq<char>>) -> Seq<char> {
    match readme {
        Some(t) => "\nHere is the repository README for additional context:\n\n"@ + take_chars_spec(t, 2000) + "\n"@,
        None => Seq::empty(),
    }
}

/// The prompt that asks for a flock's metadata.
pub open spec fn flock_prompt(skills: Seq<(String, String)>, readme: Option<Seq<char>>) -> Seq<char> {
    "Given these skills in a flock (a collection of related AI skills):\n\n"@ + skill_listing(skill_lines(skills), Seq::empty()) + readme_section(readme)
        + "\nGenerate a JSON object with:\n- \"name\": a short, descriptive name for this collection (2-5 words, title case)\n- \"description\": a one-sentence summary of what this collection provides (under 120 chars)\n- \"keywords\": an array of 3-8 lowercase keyword strings for discoverability\n\nRespond with ONLY the JSON object, no markdown fences."@
}

fn skill_line_of(name: &str, description: &str) -> (r: Vec<char>)
    ensures
        r@ == skill_line(name@, description@),
{
    let short = take_chars(description, 120);
    let a = concat(&chars_of("- "), &chars_of(name));
    let b = concat(&a, &chars_of(": "));
    let c = concat(&b, &chars_of(short.as_str()));
    concat(&c, &chars_of("\n"))
}

/// The list of a flock's skills for its prompt, within about 2000 bytes.
pub fn skill_list_text(skills: &Vec<(String, String)>) -> (r: String)
    ensures
        r@ == skill_listing(skill_lines(skills@), Seq::empty()),
{
    let ghost lines = skill_lines(skills@);
    let mut text: Vec<char> = Vec::new();
    let mut text_len: usize = 0;
    let mut i: usize = 0;
    assert(lines.skip(0) =~= lines);
    assert(vstd::utf8::encode_utf8(Seq::<char>::empty()) =~= Seq::<u8>::empty());
    while i < skills.len()
        invariant
            i <= skills.len(),
            lines == skill_lines(skills@),
            text_len as int == utf8_size(text@),
            text_len <= 2000,
            skill_listing(lines, Seq::empty()) == skill_listing(lines.skip(i as int), text@),
        decreases skills.len() - i,
    {
        let line = skill_line_of(skills[i].0.as_str(), skills[i].1.as_str());
        let line_len = utf8_len(&line);
        assert(lines.skip(i as int)[0] == lines[i as int]);
        assert(lines.skip(i as int).drop_first() =~= lines.skip(i + 1));
        assert(lines[i as int] == line@);
        if line_len > 2000 - text_len {
            let tail = concat(&text, &chars_of("- ...\n"));
            return string_of(&tail);
        }
        proof {
            lemma_encode_utf8_concat(text@, line@);
        }
        text = concat(&text, &line);
        text_len = text_len + line_len;
        i += 1;
    }
    assert(lines.skip(i as int) =~= Seq::<Seq<char>>::empty());
    string_of(&text)
}

/// The prompt that asks a language model for a flock's name, description and keywords,
/// from its skills (name, description) and, when there is one, its README.
pub fn flock_metadata_prompt(skills: &Vec<(String, String)>, readme: Option<&str>) -> (r: String)
    ensures
        r@ == flock_prompt(
            skills@,
            match readme {
                Some(t) => Some(t@),
                None => None,
            },
        ),
{
    let listing = skill_list_text(skills);
    let section = match readme {
        Some(t) => {
            let truncated = take_chars(t, 2000);
            concat(&concat(&chars_of("\nHere is the repository README for additional context:\n\n"), &chars_of(truncated.as_str())), &chars_of("\n"))
        },
        None => Vec::new(),
    };
    let a = concat(&chars_of("Given these skills in a flock (a collection of related AI skills):\n\n"), &chars_of(listing.as_str()));
    let b = concat(&a, &section);
    string_of(&concat(&b, &chars_of("\nGenerate a JSON object with:\n- \"name\": a short, descriptive name for this collection (2-5 words, title case)\n- \"description\": a one-sentence summary of what this collection provides (under 120 chars)\n- \"keywords\": an array of 3-8 lowercase keyword strings for discoverability\n\nRespond with ONLY the JSON object, no markdown fences.")))
}

/// The prompt that asks for a repository's metadata from its README.
pub open spec fn repo_prompt(readme: Seq<char>) -> Seq<char> {
    "Given this README file content:\n\n"@ + take_chars_spec(readme, 4000) + "\n\nGenerate a JSON object with:\n- \"name\": a short, human-friendly project name (2-5 words, title case)\n- \"description\": a one-sentence summary of the project (under 150 chars)\n- \"keywords\": an array of 3-8 lowercase keyword strings for discoverability\n\nRespond with ONLY the JSON object, no markdown fences."@
}

/// The prompt that asks a language model for a repository's name, description and
/// keywords from the first 4000 characters of its README.
pub fn repo_metadata_prompt(readme: &str) -> (r: String)
    ensures
        r@ == repo_prompt(readme@),
{
    let truncated = take_chars(readme, 4000);
    string_of(
        &concat(
            &concat(&chars_of("Given this README file content:\n\n"), &chars_of(truncated.as_str())),
            &chars_of("\n\nGenerate a JSON object with:\n- \"name\": a short, human-friendly project name (2-5 words, title case)\n- \"description\": a one-sentence summary of the project (under 150 chars)\n- \"keywords\": an array of 3-8 lowercase keyword strings for discoverability\n\nRespond with ONLY the JSON object, no markdown fences."),
        ),
    )
}

/// The JSON text of a metadata answer: trimmed, without a leading ```` ```json ```` or
/// ```` ``` ```` fence and a trailing ```` ``` ````, trimmed again.
pub open spec fn metadata_json_of(content: Seq<char>) -> Seq<char> {
    trim(
        trim_end_matches(
            trim_start_matches(trim_start_matches(trim(content), "```json"@), "```"@),
            "```"@,
        ),
    )
}

/// The JSON text of a language model's metadata answer.
pub fn metadata_json_text(content: &str) -> (r: String)
    ensures
        r@ == metadata_json_of(content@),
{
    let v = chars_of(content);
    let n = v.len();
    assert(v@.subrange(0, n as int) =~= v@);
    let json_fence = chars_of("```json");
    let fence = chars_of("```");
    proof {
        reveal_strlit("```json");
        reveal_strlit("```");
    }
    let (a, b) = trim_at(&v, 0, n);
    let a = trim_start_matches_at(&v, a, b, &json_fence);
    let a = trim_start_matches_at(&v, a, b, &fence);
    let b = trim_end_matches_at(&v, a, b, &fence);
    let (a, b) = trim_at(&v, a, b);
    string_of(&slice_vec(&v, a, b))
}

} // verus!
