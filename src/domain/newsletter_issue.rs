//! A newsletter issue: a title and a body in two renderings.
use vstd::prelude::*;
use vstd::string::*;

verus! {

/// Why an issue is refused: its first empty part, in the order title,
/// text, html.
pub open spec fn issue_refusal(title: Seq<char>, text: Seq<char>, html: Seq<char>) -> Seq<char> {
    if title.len() == 0 {
        "Title can't be empty."@
    } else if text.len() == 0 {
        "Text content can't be empty."@
    } else {
        "Html content can't be empty."@
    }
}

pub struct NewsletterIssue {
    title: String,
    text_content: String,
    html_content: String,
}

impl NewsletterIssue {
    pub closed spec fn spec_title(&self) -> Seq<char> {
        self.title@
    }

    pub closed spec fn spec_text(&self) -> Seq<char> {
        self.text_content@
    }

    pub closed spec fn spec_html(&self) -> Seq<char> {
        self.html_content@
    }

    /// An issue with no empty part.
    pub fn try_new(title: String, text_content: String, html_content: String) -> (r: Result<
        NewsletterIssue,
        String,
    >)
        ensures
            r is Ok <==> title@.len() > 0 && text_content@.len() > 0 && html_content@.len() > 0,
            r matches Ok(i) ==> i.spec_title() == title@ && i.spec_text() == text_content@
                && i.spec_html() == html_content@,
            r matches Err(m) ==> m@ == issue_refusal(title@, text_content@, html_content@),
    {
        if title.as_str().is_empty() {
            return Err(String::from_str("Title can't be empty."));
        }
        if text_content.as_str().is_empty() {
            return Err(String::from_str("Text content can't be empty."));
        }
        if html_content.as_str().is_empty() {
            return Err(String::from_str("Html content can't be empty."));
        }
        Ok(NewsletterIssue { title, text_content, html_content })
    }

    /// The issue's title.
    pub fn title(&self) -> (r: &str)
        ensures
            r@ == self.spec_title(),
    {
        self.title.as_str()
    }

    /// The issue's plain-text content.
    pub fn text_content(&self) -> (r: &str)
        ensures
            r@ == self.spec_text(),
    {
        self.text_content.as_str()
    }

    /// The issue's HTML content.
    pub fn html_content(&self) -> (r: &str)
        ensures
            r@ == self.spec_html(),
    {
        self.html_content.as_str()
    }

    pub fn duplicate(&self) -> (r: NewsletterIssue)
        ensures
            r.spec_title() == self.spec_title(),
            r.spec_text() == self.spec_text(),
            r.spec_html() == self.spec_html(),
    {
        NewsletterIssue {
            title: self.title.clone(),
            text_content: self.text_content.clone(),
            html_content: self.html_content.clone(),
        }
    }
}

} // verus!
