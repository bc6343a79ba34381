//! Posts, threads and the pages of a threads summary.

use crate::types::utils::{cleaned, quoted, quotes_in, remove_html};
use vstd::prelude::*;
use std::cmp::Ordering;
use vstd::std_specs::cmp::{PartialEqSpecImpl, PartialOrdSpecImpl};

verus! {

/// One post as the upstream reports it. In a threads summary only `no` and
/// `last_modified` are filled.
#[derive(Debug)]
pub struct Post {
    pub no: i32,
    pub sticky: Option<i32>,
    pub closed: Option<i32>,
    pub now: Option<String>,
    pub name: Option<String>,
    pub sub: Option<String>,
    pub com: Option<String>,
    pub filename: Option<String>,
    pub ext: Option<String>,
    pub w: Option<i32>,
    pub h: Option<i32>,
    pub tn_w: Option<i32>,
    pub tn_h: Option<i32>,
    pub tim: Option<i64>,
    pub time: Option<i64>,
    pub md5: Option<String>,
    pub fsize: Option<i32>,
    pub resto: Option<i32>,
    pub capcode: Option<String>,
    pub semantic_url: Option<String>,
    pub replies: Option<i32>,
    pub images: Option<i32>,
    pub unique_ips: Option<i32>,
    pub omitted_posts: Option<i32>,
    pub omitted_images: Option<i32>,
    pub last_replies: Option<Vec<Post>>,
    pub last_modified: Option<i64>,
}

/// A full thread: the opening post followed by its replies.
#[derive(Clone, Debug)]
pub struct Thread {
    pub posts: Vec<Post>,
}

/// One page of a board's threads summary.
#[derive(Clone, Debug)]
pub struct ThreadPage {
    pub page: i32,
    pub threads: Vec<Post>,
}

/// A copy of an optional text.
fn copy_text(text: &Option<String>) -> (r: Option<String>)
    ensures
        r == *text,
{
    match text {
        None => None,
        Some(s) => Some(s.clone()),
    }
}

impl Clone for Post {
    /// A deep copy: the result mirrors the post.
    fn clone(&self) -> (r: Self)
        ensures
            self.mirrors(r),
        decreases *self,
    {
        let last_replies = match &self.last_replies {
            None => None,
            Some(replies) => {
                let mut copies: Vec<Post> = Vec::new();
                let mut i: usize = 0;
                while i < replies.len()
                    invariant
                        i <= replies.len(),
                        copies.len() == i,
                        self.last_replies == Some(*replies),
                        forall|j: int| 0 <= j < i ==> (#[trigger] replies@[j]).mirrors(copies@[j]),
                    decreases replies.len() - i,
                {
                    proof {
                        broadcast use vstd::std_specs::vec::axiom_vec_index_decreases;
                        assert(decreases_to!(*self => self.last_replies));
                        assert(self.last_replies->0 == *replies);
                        assert(decreases_to!(self.last_replies => self.last_replies->0));
                        assert(decreases_to!(*replies => replies[i as int]));
                    }
                    let copy = replies[i].clone();
                    copies.push(copy);
                    i = i + 1;
                }
                Some(copies)
            },
        };
        Post {
            no: self.no,
            sticky: self.sticky,
            closed: self.closed,
            now: copy_text(&self.now),
            name: copy_text(&self.name),
            sub: copy_text(&self.sub),
            com: copy_text(&self.com),
            filename: copy_text(&self.filename),
            ext: copy_text(&self.ext),
            w: self.w,
            h: self.h,
            tn_w: self.tn_w,
            tn_h: self.tn_h,
            tim: self.tim,
            time: self.time,
            md5: copy_text(&self.md5),
            fsize: self.fsize,
            resto: self.resto,
            capcode: copy_text(&self.capcode),
            semantic_url: copy_text(&self.semantic_url),
            replies: self.replies,
            images: self.images,
            unique_ips: self.unique_ips,
            omitted_posts: self.omitted_posts,
            omitted_images: self.omitted_images,
            last_replies,
            last_modified: self.last_modified,
        }
    }
}

impl Post {
    /// Two posts mirror each other when every field of one equals that of the
    /// other, the quoted last replies taken one by one in their order.
    pub open spec fn mirrors(&self, other: Post) -> bool
        decreases *self,
    {
        &&& self.no == other.no
        &&& self.sticky == other.sticky
        &&& self.closed == other.closed
        &&& self.now == other.now
        &&& self.name == other.name
        &&& self.sub == other.sub
        &&& self.com == other.com
        &&& self.filename == other.filename
        &&& self.ext == other.ext
        &&& self.w == other.w
        &&& self.h == other.h
        &&& self.tn_w == other.tn_w
        &&& self.tn_h == other.tn_h
        &&& self.tim == other.tim
        &&& self.time == other.time
        &&& self.md5 == other.md5
        &&& self.fsize == other.fsize
        &&& self.resto == other.resto
        &&& self.capcode == other.capcode
        &&& self.semantic_url == other.semantic_url
        &&& self.replies == other.replies
        &&& self.images == other.images
        &&& self.unique_ips == other.unique_ips
        &&& self.omitted_posts == other.omitted_posts
        &&& self.omitted_images == other.omitted_images
        &&& self.last_modified == other.last_modified
        &&& match (self.last_replies, other.last_replies) {
            (None, None) => true,
            (Some(mine), Some(theirs)) => {
                &&& mine@.len() == theirs@.len()
                &&& forall|j: int|
                    0 <= j < mine@.len() ==> (#[trigger] mine@[j]).mirrors(theirs@[j])
            },
            _ => false,
        }
    }
}

impl Post {
    /// Whether the parent reference is absent or zero.
    pub open spec fn spec_is_op(&self) -> bool {
        self.resto is None || self.resto == Some(0i32)
    }

    /// The number of the thread that the post belongs to.
    pub open spec fn spec_thread_no(&self) -> i32 {
        match self.resto {
            Some(resto) if resto != 0 => resto,
            _ => self.no,
        }
    }

    /// An opening post has no parent reference, or the reference zero.
    pub fn is_op(&self) -> (r: bool)
        ensures
            r == self.spec_is_op(),
    {
        match self.resto {
            None => true,
            Some(resto) => resto == 0,
        }
    }

    /// A reply is a post that opens no thread: one whose parent reference is
    /// there and not zero.
    pub fn is_reply(&self) -> (r: bool)
        ensures
            r == !self.spec_is_op(),
    {
        !self.is_op()
    }

    /// The parent reference where it is there and not zero, else the post's
    /// own number.
    pub fn thread_no(&self) -> (r: i32)
        ensures
            r == self.spec_thread_no(),
    {
        match self.resto {
            Some(resto) if resto != 0 => resto,
            _ => self.no,
        }
    }

    pub fn post_no(&self) -> (r: i32)
        ensures
            r == self.no,
    {
        self.no
    }

    pub fn is_sticky(&self) -> (r: bool)
        ensures
            r == (self.sticky is Some),
    {
        self.sticky.is_some()
    }

    pub fn is_closed(&self) -> (r: bool)
        ensures
            r == (self.closed is Some),
    {
        self.closed.is_some()
    }

    pub fn has_image(&self) -> (r: bool)
        ensures
            r == (self.tim is Some),
    {
        self.tim.is_some()
    }

    pub fn has_replies(&self) -> (r: bool)
        ensures
            r == (self.replies is Some),
    {
        self.replies.is_some()
    }

    /// Whether the comment, if there is one, can be cleaned.
    pub open spec fn comment_cleans(&self) -> bool {
        self.com is Some ==> cleaned(self.com->0@) is Ok
    }

    /// Whether every number that the comment quotes, if there is a comment,
    /// is a 32-bit number.
    pub open spec fn quotes_read(&self) -> bool {
        self.com is Some ==> quoted(self.com->0@) is Some
    }

    /// The comment as plain text, where the post has one. A comment that
    /// cannot be cleaned is not accepted: see `try_clean_comment`.
    pub fn clean_comment(&self) -> (r: Option<String>)
        requires
            self.comment_cleans(),
        ensures
            match r {
                Some(text) => self.com is Some && cleaned(self.com->0@) == Ok::<
                    Seq<char>,
                    crate::types::utils::DecodeFailure,
                >(text@),
                None => self.com is None,
            },
    {
        match &self.com {
            None => None,
            Some(comment) => match remove_html(comment.as_str()) {
                Ok(text) => Some(text),
                Err(_) => {
                    assert(false);
                    None
                },
            },
        }
    }

    /// The comment as plain text; nothing where the post has no comment or
    /// the comment cannot be cleaned.
    pub fn try_clean_comment(&self) -> (r: Option<String>)
        ensures
            match r {
                Some(text) => self.com is Some && cleaned(self.com->0@) == Ok::<
                    Seq<char>,
                    crate::types::utils::DecodeFailure,
                >(text@),
                None => self.com is None || cleaned(self.com->0@) is Err,
            },
    {
        let cleans = match &self.com {
            None => true,
            Some(comment) => remove_html(comment.as_str()).is_ok(),
        };
        if cleans {
            self.clean_comment()
        } else {
            None
        }
    }

    /// The numbers of the posts that the comment quotes, in the order of
    /// the comment; none where the post has no comment. A comment that
    /// quotes a number beyond 32 bits is not accepted: see `try_quotes`.
    pub fn quotes(&self) -> (r: Vec<i32>)
        requires
            self.quotes_read(),
        ensures
            r@ == (if self.com is Some {
                quoted(self.com->0@)->0
            } else {
                Seq::<i32>::empty()
            }),
    {
        match &self.com {
            None => Vec::new(),
            Some(comment) => match quotes_in(comment.as_str()) {
                Some(numbers) => numbers,
                None => {
                    assert(false);
                    Vec::new()
                },
            },
        }
    }

    /// The numbers of the posts that the comment quotes; nothing where the
    /// comment quotes a number beyond 32 bits.
    pub fn try_quotes(&self) -> (r: Option<Vec<i32>>)
        ensures
            match r {
                Some(numbers) => self.quotes_read() && numbers@ == (if self.com is Some {
                    quoted(self.com->0@)->0
                } else {
                    Seq::<i32>::empty()
                }),
                None => !self.quotes_read(),
            },
    {
        let reads = match &self.com {
            None => true,
            Some(comment) => quotes_in(comment.as_str()).is_some(),
        };
        if reads {
            Some(self.quotes())
        } else {
            None
        }
    }
}

impl PartialEq for Post {
    /// Two posts are the same post when they have the same number.
    fn eq(&self, other: &Self) -> (r: bool) {
        self.no == other.no
    }
}

impl PartialEqSpecImpl for Post {
    open spec fn obeys_eq_spec() -> bool {
        true
    }

    open spec fn eq_spec(&self, other: &Self) -> bool {
        self.no == other.no
    }
}

impl Eq for Post {

}

impl PartialOrd for Post {
    /// Posts are ordered by their numbers.
    fn partial_cmp(&self, other: &Self) -> (r: Option<Ordering>) {
        if self.no < other.no {
            Some(Ordering::Less)
        } else if self.no > other.no {
            Some(Ordering::Greater)
        } else {
            Some(Ordering::Equal)
        }
    }
}

impl PartialOrdSpecImpl for Post {
    open spec fn obeys_partial_cmp_spec() -> bool {
        true
    }

    open spec fn partial_cmp_spec(&self, other: &Self) -> Option<Ordering> {
        if self.no < other.no {
            Some(Ordering::Less)
        } else if self.no > other.no {
            Some(Ordering::Greater)
        } else {
            Some(Ordering::Equal)
        }
    }
}

} // verus!
