//! A blog post that moves from draft, through review, to published. Only a
//! published post shows its text.

use vstd::prelude::*;
use vstd::string::StringExecFns;

verus! {

/// A post being written.
pub struct PostDraft {
    content: String,
}

/// A post waiting for review.
pub struct PostPendingReview {
    content: String,
}

/// A published post.
pub struct PostPublished {
    content: String,
}

impl View for PostDraft {
    type V = Seq<char>;

    closed spec fn view(&self) -> Seq<char> {
        self.content@
    }
}

impl View for PostPendingReview {
    type V = Seq<char>;

    closed spec fn view(&self) -> Seq<char> {
        self.content@
    }
}

impl View for PostPublished {
    type V = Seq<char>;

    closed spec fn view(&self) -> Seq<char> {
        self.content@
    }
}

impl PostDraft {
    /// An empty draft.
    pub fn new() -> (r: PostDraft)
        ensures
            r@ == Seq::<char>::empty(),
    {
        PostDraft { content: String::new() }
    }

    /// Appends `text` to the draft.
    pub fn add_text(&mut self, text: &str)
        ensures
            final(self)@ == old(self)@ + text@,
    {
        self.content.append(text);
    }

    fn take_content(&mut self) -> (r: String)
        ensures
            r@ == old(self)@,
    {
        let mut out = String::new();
        std::mem::swap(&mut out, &mut self.content);
        out
    }
}

impl PostPendingReview {
    /// A post under review holding `content`.
    pub fn new(content: String) -> (r: PostPendingReview)
        ensures
            r@ == content@,
    {
        PostPendingReview { content }
    }

    fn take_content(&mut self) -> (r: String)
        ensures
            r@ == old(self)@,
    {
        let mut out = String::new();
        std::mem::swap(&mut out, &mut self.content);
        out
    }
}

impl PostPublished {
    /// A published post holding `content`.
    pub fn new(content: String) -> (r: PostPublished)
        ensures
            r@ == content@,
    {
        PostPublished { content }
    }

    /// The text of the post.
    pub fn content(&self) -> (r: &str)
        ensures
            r@ == self@,
    {
        self.content.as_str()
    }
}

/// A post in one of its three stages.
pub enum Post {
    Draft(PostDraft),
    PendingReview(PostPendingReview),
    Published(PostPublished),
}

impl Post {
    /// The text of the post, whatever its stage.
    pub open spec fn text(&self) -> Seq<char> {
        match self {
            Post::Draft(d) => d@,
            Post::PendingReview(p) => p@,
            Post::Published(p) => p@,
        }
    }

    /// A new, empty draft.
    pub fn new() -> (r: Post)
        ensures
            r is Draft,
            r.text() == Seq::<char>::empty(),
    {
        Post::Draft(PostDraft::new())
    }

    /// Appends `text`, while the post is a draft; otherwise does nothing.
    pub fn add_text(&mut self, text: &str)
        ensures
            *old(self) is Draft ==> *final(self) is Draft && final(self).text() == old(self).text()
                + text@,
            !(*old(self) is Draft) ==> *final(self) == *old(self),
    {
        if let Post::Draft(draft) = self {
            draft.add_text(text);
        }
    }

    /// Sends a draft to review; otherwise does nothing.
    pub fn request_review(&mut self)
        ensures
            *old(self) is Draft ==> *final(self) is PendingReview && final(self).text() == old(
                self,
            ).text(),
            !(*old(self) is Draft) ==> *final(self) == *old(self),
    {
        let next = if let Post::Draft(draft) = self {
            Some(draft.take_content())
        } else {
            None
        };
        if let Some(content) = next {
            *self = Post::PendingReview(PostPendingReview::new(content));
        }
    }

    /// Publishes a post under review; otherwise does nothing.
    pub fn approve(&mut self)
        ensures
            *old(self) is PendingReview ==> *final(self) is Published && final(self).text() == old(
                self,
            ).text(),
            !(*old(self) is PendingReview) ==> *final(self) == *old(self),
    {
        let next = if let Post::PendingReview(pending) = self {
            Some(pending.take_content())
        } else {
            None
        };
        if let Some(content) = next {
            *self = Post::Published(PostPublished::new(content));
        }
    }

    /// Sends a post under review back to draft; otherwise does nothing.
    pub fn reject(&mut self)
        ensures
            *old(self) is PendingReview ==> *final(self) is Draft && final(self).text() == old(
                self,
            ).text(),
            !(*old(self) is PendingReview) ==> *final(self) == *old(self),
    {
        let next = if let Post::PendingReview(pending) = self {
            Some(pending.take_content())
        } else {
            None
        };
        if let Some(content) = next {
            *self = Post::Draft(PostDraft { content });
        }
    }

    /// The text of a published post, and the empty string at every other
    /// stage.
    pub fn content(&self) -> (r: &str)
        ensures
            self is Published ==> r@ == self.text(),
            !(self is Published) ==> r@ == Seq::<char>::empty(),
    {
        match self {
            Post::Published(published) => published.content(),
            _ => {
                proof {
                    reveal_strlit("");
                }
                ""
            },
        }
    }
}

} // verus!
