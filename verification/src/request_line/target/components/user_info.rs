//! URL authority's user information.

use vstd::prelude::*;
use vstd::string::StringExecFns;
use proptest::test_runner::TestRng;
use crate::request_line::character_class::CharacterClass;
use crate::request_line::source::draw_bool;
use crate::request_line::target::components::CharacterClasses;
use crate::request_line::text::{free_of, push_char};
use crate::request_line::url_char::{
    class_text, is_component_text, is_sub_delim, is_unreserved, lemma_component_text_free_of,
    lemma_component_text_same_set, push_sub_delims, unreserved_chars,
};

verus! {

/// `unreserved / sub-delims`: what user information holds as it is.
pub open spec fn is_user_info_char(c: char) -> bool {
    is_unreserved(c) || is_sub_delim(c)
}

/// The class of the characters of user information.
pub fn user_info_class() -> (class: CharacterClass)
    ensures
        class.wf(),
        forall|c: char| #[trigger] class.is_safe(c) <==> is_user_info_char(c),
{
    let mut safe = unreserved_chars();
    push_sub_delims(&mut safe);
    CharacterClass::new(safe.as_slice())
}

/// A user name or a password has no more generated characters than this.
pub const USER_INFO_CHARS: usize = 50;

/// The text is a user name or a password as the generator makes them.
pub open spec fn is_user_info_subcomponent(text: Seq<char>) -> bool {
    is_component_text(|c: char| is_user_info_char(c), text, 0, USER_INFO_CHARS as int)
}

/// Draws a user name or a password.
fn user_info_subcomponent(rng: &mut TestRng, class: &CharacterClass) -> (text: String)
    requires
        forall|c: char| #[trigger] class.is_safe(c) <==> is_user_info_char(c),
    ensures
        is_user_info_subcomponent(text@),
{
    let text = class_text(rng, class, 0, USER_INFO_CHARS);
    proof {
        lemma_component_text_same_set(
            |c: char| class.is_safe(c),
            |c: char| is_user_info_char(c),
            text@,
            0,
            USER_INFO_CHARS as int,
        );
    }
    text
}

/// The user information of a URL: a user name and, where there is one, a
/// password, which may be empty.
#[derive(Debug, Clone, PartialEq, Eq)]
pub struct UserInfo {
    pub username: String,
    pub password: Option<String>,
}

impl UserInfo {
    /// The text of the user information: `<username>[:[<password>]]`.
    pub open spec fn text(&self) -> Seq<char> {
        self.username@ + match self.password {
            Some(password) => seq![':'] + password@,
            None => seq![],
        }
    }

    /// User name and password are as the generator makes them.
    pub open spec fn as_generated(&self) -> bool {
        &&& is_user_info_subcomponent(self.username@)
        &&& self.password matches Some(password) ==> is_user_info_subcomponent(password@)
    }
}

/// A user name or a password holds neither colon nor `@` as it is, so the
/// text of user information comes apart at its first colon, and an authority
/// at its first `@`.
pub proof fn lemma_user_info_subcomponent_plain(text: Seq<char>)
    requires
        is_user_info_subcomponent(text),
    ensures
        free_of(text, ':'),
        free_of(text, '@'),
{
    lemma_component_text_free_of(
        |c: char| is_user_info_char(c),
        text,
        0,
        USER_INFO_CHARS as int,
        ':',
    );
    lemma_component_text_free_of(
        |c: char| is_user_info_char(c),
        text,
        0,
        USER_INFO_CHARS as int,
        '@',
    );
}

/// The user information of a user name and a password, and its text.
pub fn user_info_from(username: String, password: Option<String>) -> (out: (UserInfo, String))
    ensures
        out.0.username == username,
        out.0.password == password,
        out.1@ == out.0.text(),
{
    let mut repr = username.clone();
    match &password {
        Some(password) => {
            push_char(&mut repr, ':');
            repr.append(password.as_str());
        },
        None => {},
    }
    let info = UserInfo { username, password };
    assert(repr@ =~= info.text());
    (info, repr)
}

/// Draws user information: a user name and, one time in two, a password.
pub fn user_info(rng: &mut TestRng, classes: &CharacterClasses) -> (out: (UserInfo, String))
    ensures
        out.1@ == out.0.text(),
        out.0.as_generated(),
{
    let class = classes.user_info();
    let username = user_info_subcomponent(rng, class);
    let password: Option<String> = if draw_bool(rng) {
        Some(user_info_subcomponent(rng, class))
    } else {
        None
    };
    user_info_from(username, password)
}

} // verus!
