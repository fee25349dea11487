//! The built-in locales: the strings shown to applicants in English and in
//! Simplified Chinese.
use vstd::prelude::*;

verus! {

/// The strings shown to an applicant, in one language.
#[derive(Debug, Clone)]
pub struct Locale {
    pub start_button: String,
    pub welcome: String,
    pub welcome_no_group_name: String,
    pub generating_question: String,
    pub generating_button: String,
    pub question_intro: String,
    pub approved: String,
    pub rejected_wrong: String,
    pub rejected_timeout: String,
    pub rejected_llm_error: String,
    pub cooldown_notice: String,
}

/// A locale's strings as character sequences.
pub struct LocaleView {
    pub start_button: Seq<char>,
    pub welcome: Seq<char>,
    pub welcome_no_group_name: Seq<char>,
    pub generating_question: Seq<char>,
    pub generating_button: Seq<char>,
    pub question_intro: Seq<char>,
    pub approved: Seq<char>,
    pub rejected_wrong: Seq<char>,
    pub rejected_timeout: Seq<char>,
    pub rejected_llm_error: Seq<char>,
    pub cooldown_notice: Seq<char>,
}

impl View for Locale {
    type V = LocaleView;

    open spec fn view(&self) -> LocaleView {
        LocaleView {
            start_button: self.start_button@,
            welcome: self.welcome@,
            welcome_no_group_name: self.welcome_no_group_name@,
            generating_question: self.generating_question@,
            generating_button: self.generating_button@,
            question_intro: self.question_intro@,
            approved: self.approved@,
            rejected_wrong: self.rejected_wrong@,
            rejected_timeout: self.rejected_timeout@,
            rejected_llm_error: self.rejected_llm_error@,
            cooldown_notice: self.cooldown_notice@,
        }
    }
}

/// The built-in English strings.
pub open spec fn english_view() -> LocaleView {
    LocaleView {
        start_button: "Start verification"@,
        welcome: "Hi {user}! To join {group}, press the button below within {minutes} minutes and answer a short question."@,
        welcome_no_group_name: "Hi {user}! To join the group, press the button below within {minutes} minutes and answer a short question."@,
        generating_question: "Generating your question…"@,
        generating_button: "Generating…"@,
        question_intro: "Please reply with your answer within {minutes} minutes."@,
        approved: "Your answer was accepted. Welcome aboard!"@,
        rejected_wrong: "Sorry, your answer was not accepted. You can try again in {minutes} minutes."@,
        rejected_timeout: "Time is up. You can try again in {minutes} minutes."@,
        rejected_llm_error: "Sorry, something went wrong on our side while checking your answer. Please request to join again."@,
        cooldown_notice: "You did not pass verification recently. Please try again in {minutes} minutes."@,
    }
}

/// The built-in English locale.
pub fn english() -> (l: Locale)
    ensures
        l@ == english_view(),
{
    Locale {
        start_button: String::from_str("Start verification"),
        welcome: String::from_str("Hi {user}! To join {group}, press the button below within {minutes} minutes and answer a short question."),
        welcome_no_group_name: String::from_str("Hi {user}! To join the group, press the button below within {minutes} minutes and answer a short question."),
        generating_question: String::from_str("Generating your question…"),
        generating_button: String::from_str("Generating…"),
        question_intro: String::from_str("Please reply with your answer within {minutes} minutes."),
        approved: String::from_str("Your answer was accepted. Welcome aboard!"),
        rejected_wrong: String::from_str("Sorry, your answer was not accepted. You can try again in {minutes} minutes."),
        rejected_timeout: String::from_str("Time is up. You can try again in {minutes} minutes."),
        rejected_llm_error: String::from_str("Sorry, something went wrong on our side while checking your answer. Please request to join again."),
        cooldown_notice: String::from_str("You did not pass verification recently. Please try again in {minutes} minutes."),
    }
}

/// The built-in Simplified Chinese strings.
pub open spec fn simplified_chinese_view() -> LocaleView {
    LocaleView {
        start_button: "开始验证"@,
        welcome: "你好，{user}！要加入 {group}，请在 {minutes} 分钟内点击下方按钮并回答一个简短的问题。"@,
        welcome_no_group_name: "你好，{user}！要加入本群，请在 {minutes} 分钟内点击下方按钮并回答一个简短的问题。"@,
        generating_question: "正在生成问题…"@,
        generating_button: "生成中…"@,
        question_intro: "请在 {minutes} 分钟内回复你的答案。"@,
        approved: "回答已通过，欢迎加入！"@,
        rejected_wrong: "抱歉，你的回答未通过。请在 {minutes} 分钟后重试。"@,
        rejected_timeout: "验证已超时。请在 {minutes} 分钟后重试。"@,
        rejected_llm_error: "抱歉，检查你的回答时出现了内部错误。请重新申请加入。"@,
        cooldown_notice: "你最近未通过验证，请在 {minutes} 分钟后再试。"@,
    }
}

/// The built-in Simplified Chinese locale.
pub fn simplified_chinese() -> (l: Locale)
    ensures
        l@ == simplified_chinese_view(),
{
    Locale {
        start_button: String::from_str("开始验证"),
        welcome: String::from_str("你好，{user}！要加入 {group}，请在 {minutes} 分钟内点击下方按钮并回答一个简短的问题。"),
        welcome_no_group_name: String::from_str("你好，{user}！要加入本群，请在 {minutes} 分钟内点击下方按钮并回答一个简短的问题。"),
        generating_question: String::from_str("正在生成问题…"),
        generating_button: String::from_str("生成中…"),
        question_intro: String::from_str("请在 {minutes} 分钟内回复你的答案。"),
        approved: String::from_str("回答已通过，欢迎加入！"),
        rejected_wrong: String::from_str("抱歉，你的回答未通过。请在 {minutes} 分钟后重试。"),
        rejected_timeout: String::from_str("验证已超时。请在 {minutes} 分钟后重试。"),
        rejected_llm_error: String::from_str("抱歉，检查你的回答时出现了内部错误。请重新申请加入。"),
        cooldown_notice: String::from_str("你最近未通过验证，请在 {minutes} 分钟后再试。"),
    }
}

impl Locale {
    /// A copy of this locale.
    pub fn duplicate(&self) -> (r: Locale)
        ensures
            r == *self,
    {
        Locale {
            start_button: self.start_button.clone(),
            welcome: self.welcome.clone(),
            welcome_no_group_name: self.welcome_no_group_name.clone(),
            generating_question: self.generating_question.clone(),
            generating_button: self.generating_button.clone(),
            question_intro: self.question_intro.clone(),
            approved: self.approved.clone(),
            rejected_wrong: self.rejected_wrong.clone(),
            rejected_timeout: self.rejected_timeout.clone(),
            rejected_llm_error: self.rejected_llm_error.clone(),
            cooldown_notice: self.cooldown_notice.clone(),
        }
    }
}

} // verus!
