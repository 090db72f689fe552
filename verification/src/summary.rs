//! One-line summaries of tweets and newspaper articles.
use vstd::prelude::*;
use vstd::string::StringExecFns;

verus! {

/// Things that can be summed up in one line.
pub trait Summary {
    spec fn summary_of(&self) -> Seq<char>;

    fn summerize(&self) -> (s: String)
        ensures
            s@ == self.summary_of(),
    ;
}

pub struct Tweet {
    pub user: String,
    pub content: String,
    pub online_status: bool,
}

pub struct NewsPaper {
    pub headline: String,
    pub content: String,
    pub date: String,
}

/// "user(onl): content" for a user who is online, "user(off): content" otherwise.
pub open spec fn tweet_summary(user: Seq<char>, content: Seq<char>, online: bool) -> Seq<char> {
    user + (if online {
        "(onl): "@
    } else {
        "(off): "@
    }) + content
}

/// "date headline: content".
pub open spec fn newspaper_summary(headline: Seq<char>, content: Seq<char>, date: Seq<char>) -> Seq<
    char,
> {
    date + " "@ + headline + ": "@ + content
}

impl Summary for Tweet {
    open spec fn summary_of(&self) -> Seq<char> {
        tweet_summary(self.user@, self.content@, self.online_status)
    }

    fn summerize(&self) -> (s: String) {
        let mut s = self.user.clone();
        if self.online_status {
            s.append("(onl): ");
        } else {
            s.append("(off): ");
        }
        s.append(self.content.as_str());
        s
    }
}

impl Summary for NewsPaper {
    open spec fn summary_of(&self) -> Seq<char> {
        newspaper_summary(self.headline@, self.content@, self.date@)
    }

    fn summerize(&self) -> (s: String) {
        let mut s = self.date.clone();
        s.append(" ");
        s.append(self.headline.as_str());
        s.append(": ");
        s.append(self.content.as_str());
        s
    }
}

} // verus!
