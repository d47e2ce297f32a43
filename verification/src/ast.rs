//! The syntax tree of a query.
use vstd::prelude::*;
use crate::error::Span;
use crate::text::{
    ascii_lowercase_text, ascii_text, ascii_uppercase_text, chars_of, eq_lit, lowercase_of,
    to_lowercase,
};

verus! {

/// A whole query: its expression and the span it covers.
#[derive(Debug, PartialEq)]
pub struct Query {
    pub expression: Expression,
    pub span: Span,
}

#[derive(Debug, PartialEq)]
pub enum Expression {
    BooleanOp { operator: BooleanOperator, left: Box<Expression>, right: Option<Box<Expression>>, span: Span },
    Group { expression: Box<Expression>, span: Span },
    Proximity { operator: ProximityOperator, terms: Vec<Expression>, span: Span },
    Field { field: FieldType, value: Box<Expression>, span: Span },
    Range { field: Option<FieldType>, start: String, end: String, span: Span },
    Term { term: Term, span: Span },
    Comment { text: String, span: Span },
}

#[derive(Clone, Copy, Debug, PartialEq, Eq, Structural)]
pub enum BooleanOperator {
    And,
    Or,
    Not,
}

pub open spec fn boolean_operator_of(s: Seq<char>) -> Option<BooleanOperator> {
    if s == "AND"@ {
        Some(BooleanOperator::And)
    } else if s == "OR"@ {
        Some(BooleanOperator::Or)
    } else if s == "NOT"@ {
        Some(BooleanOperator::Not)
    } else {
        None
    }
}

pub open spec fn boolean_operator_name(op: BooleanOperator) -> Seq<char> {
    match op {
        BooleanOperator::And => "AND"@,
        BooleanOperator::Or => "OR"@,
        BooleanOperator::Not => "NOT"@,
    }
}

impl BooleanOperator {
    pub fn from_str(s: &str) -> (r: Option<Self>)
        ensures
            r == boolean_operator_of(s@),
    {
        let l = chars_of(s);
        if eq_lit(&l, "AND") {
            Some(BooleanOperator::And)
        } else if eq_lit(&l, "OR") {
            Some(BooleanOperator::Or)
        } else if eq_lit(&l, "NOT") {
            Some(BooleanOperator::Not)
        } else {
            None
        }
    }

    pub fn as_str(&self) -> (r: &'static str)
        ensures
            r@ == boolean_operator_name(*self),
    {
        match self {
            BooleanOperator::And => "AND",
            BooleanOperator::Or => "OR",
            BooleanOperator::Not => "NOT",
        }
    }
}

#[derive(Clone, Copy, Debug, PartialEq, Eq, Structural)]
pub enum ProximityOperator {
    Proximity { distance: Option<u32> },
    Near { distance: u32 },
    NearForward { distance: u32 },
}

#[derive(Clone, Copy, Debug, PartialEq, Eq, Structural)]
pub enum FieldType {
    Title,
    Site,
    Url,
    Author,
    Links,
    Continent,
    Country,
    Region,
    City,
    Latitude,
    Longitude,
    Language,
    ChannelId,
    AuthorGender,
    AuthorVerified,
    AuthorVerifiedType,
    AuthorFollowers,
    BlogName,
    ParentBlogName,
    RootBlogName,
    ParentPostId,
    RootPostId,
    Tags,
    BrandIds,
    Objects,
    EngagementType,
    EngagingWith,
    EngagingWithGuid,
    Guid,
    ImageType,
    ItemReview,
    Rating,
    MinuteOfDay,
    PubType,
    PublisherSubType,
    Publication,
    RedditAuthorFlair,
    RedditPostFlair,
    RedditSpoiler,
    SensitiveContent,
    Subreddit,
    SubredditNSFW,
    SubredditTopics,
    TopLevelDomain,
    WeblogTitle,
    Sentiment,
}

/// The field named by `s` once `s` is lowercased.
pub open spec fn field_of_lowercase(s: Seq<char>) -> Option<FieldType> {
        if s == "title"@ {
            Some(FieldType::Title)
        } else if s == "site"@ {
            Some(FieldType::Site)
        } else if s == "url"@ {
            Some(FieldType::Url)
        } else if s == "author"@ {
            Some(FieldType::Author)
        } else if s == "links"@ {
            Some(FieldType::Links)
        } else if s == "continent"@ {
            Some(FieldType::Continent)
        } else if s == "country"@ {
            Some(FieldType::Country)
        } else if s == "region"@ {
            Some(FieldType::Region)
        } else if s == "city"@ {
            Some(FieldType::City)
        } else if s == "latitude"@ {
            Some(FieldType::Latitude)
        } else if s == "longitude"@ {
            Some(FieldType::Longitude)
        } else if s == "language"@ {
            Some(FieldType::Language)
        } else if s == "channelid"@ {
            Some(FieldType::ChannelId)
        } else if s == "authorgender"@ {
            Some(FieldType::AuthorGender)
        } else if s == "authorverified"@ {
            Some(FieldType::AuthorVerified)
        } else if s == "authorverifiedtype"@ {
            Some(FieldType::AuthorVerifiedType)
        } else if s == "authorfollowers"@ {
            Some(FieldType::AuthorFollowers)
        } else if s == "blogname"@ {
            Some(FieldType::BlogName)
        } else if s == "parentblogname"@ {
            Some(FieldType::ParentBlogName)
        } else if s == "rootblogname"@ {
            Some(FieldType::RootBlogName)
        } else if s == "parentpostid"@ {
            Some(FieldType::ParentPostId)
        } else if s == "rootpostid"@ {
            Some(FieldType::RootPostId)
        } else if s == "tags"@ {
            Some(FieldType::Tags)
        } else if s == "brandids"@ {
            Some(FieldType::BrandIds)
        } else if s == "objects"@ {
            Some(FieldType::Objects)
        } else if s == "engagementtype"@ {
            Some(FieldType::EngagementType)
        } else if s == "engagingwith"@ {
            Some(FieldType::EngagingWith)
        } else if s == "engagingwithguid"@ {
            Some(FieldType::EngagingWithGuid)
        } else if s == "guid"@ {
            Some(FieldType::Guid)
        } else if s == "imagetype"@ {
            Some(FieldType::ImageType)
        } else if s == "itemreview"@ {
            Some(FieldType::ItemReview)
        } else if s == "rating"@ {
            Some(FieldType::Rating)
        } else if s == "minuteofday"@ {
            Some(FieldType::MinuteOfDay)
        } else if s == "pubtype"@ {
            Some(FieldType::PubType)
        } else if s == "publishersubtype"@ {
            Some(FieldType::PublisherSubType)
        } else if s == "publication"@ {
            Some(FieldType::Publication)
        } else if s == "redditauthorflair"@ {
            Some(FieldType::RedditAuthorFlair)
        } else if s == "redditpostflair"@ {
            Some(FieldType::RedditPostFlair)
        } else if s == "redditspoiler"@ {
            Some(FieldType::RedditSpoiler)
        } else if s == "sensitivecontent"@ {
            Some(FieldType::SensitiveContent)
        } else if s == "subreddit"@ {
            Some(FieldType::Subreddit)
        } else if s == "subredditnsfw"@ {
            Some(FieldType::SubredditNSFW)
        } else if s == "subreddittopics"@ {
            Some(FieldType::SubredditTopics)
        } else if s == "topleveldomain"@ {
            Some(FieldType::TopLevelDomain)
        } else if s == "weblogtitle"@ {
            Some(FieldType::WeblogTitle)
        } else if s == "sentiment"@ {
            Some(FieldType::Sentiment)
        } else {
            None
        }
}

/// The name of a field as the query syntax spells it.
pub open spec fn field_name(f: FieldType) -> Seq<char> {
    match f {
            FieldType::Title => "title"@,
            FieldType::Site => "site"@,
            FieldType::Url => "url"@,
            FieldType::Author => "author"@,
            FieldType::Links => "links"@,
            FieldType::Continent => "continent"@,
            FieldType::Country => "country"@,
            FieldType::Region => "region"@,
            FieldType::City => "city"@,
            FieldType::Latitude => "latitude"@,
            FieldType::Longitude => "longitude"@,
            FieldType::Language => "language"@,
            FieldType::ChannelId => "channelId"@,
            FieldType::AuthorGender => "authorGender"@,
            FieldType::AuthorVerified => "authorVerified"@,
            FieldType::AuthorVerifiedType => "authorVerifiedType"@,
            FieldType::AuthorFollowers => "authorFollowers"@,
            FieldType::BlogName => "blogName"@,
            FieldType::ParentBlogName => "parentBlogName"@,
            FieldType::RootBlogName => "rootBlogName"@,
            FieldType::ParentPostId => "parentPostId"@,
            FieldType::RootPostId => "rootPostId"@,
            FieldType::Tags => "tags"@,
            FieldType::BrandIds => "brandIds"@,
            FieldType::Objects => "objects"@,
            FieldType::EngagementType => "engagementType"@,
            FieldType::EngagingWith => "engagingWith"@,
            FieldType::EngagingWithGuid => "engagingWithGuid"@,
            FieldType::Guid => "guid"@,
            FieldType::ImageType => "imageType"@,
            FieldType::ItemReview => "itemReview"@,
            FieldType::Rating => "rating"@,
            FieldType::MinuteOfDay => "minuteOfDay"@,
            FieldType::PubType => "pubType"@,
            FieldType::PublisherSubType => "publisherSubType"@,
            FieldType::Publication => "publication"@,
            FieldType::RedditAuthorFlair => "redditAuthorFlair"@,
            FieldType::RedditPostFlair => "redditPostFlair"@,
            FieldType::RedditSpoiler => "redditSpoiler"@,
            FieldType::SensitiveContent => "sensitiveContent"@,
            FieldType::Subreddit => "subreddit"@,
            FieldType::SubredditNSFW => "subredditNSFW"@,
            FieldType::SubredditTopics => "subredditTopics"@,
            FieldType::TopLevelDomain => "topLevelDomain"@,
            FieldType::WeblogTitle => "weblogTitle"@,
            FieldType::Sentiment => "sentiment"@,
    }
}

impl FieldType {
    /// The field that `s` names, compared without regard to case: `s`, `s` with its
    /// ASCII letters in capitals and `s` with them in small letters name the same
    /// field, or none.
    pub fn from_str(s: &str) -> (r: Option<Self>)
        ensures
            r == field_of_lowercase(lowercase_of(s@)),
            r == field_of_lowercase(lowercase_of(ascii_uppercase_text(s@))),
            r == field_of_lowercase(lowercase_of(ascii_lowercase_text(s@))),
            ascii_text(s@) ==> r == field_of_lowercase(ascii_lowercase_text(s@)),
    {
        let lower = to_lowercase(s);
        let l = chars_of(lower.as_str());
        if eq_lit(&l, "title") {
            Some(FieldType::Title)
        } else if eq_lit(&l, "site") {
            Some(FieldType::Site)
        } else if eq_lit(&l, "url") {
            Some(FieldType::Url)
        } else if eq_lit(&l, "author") {
            Some(FieldType::Author)
        } else if eq_lit(&l, "links") {
            Some(FieldType::Links)
        } else if eq_lit(&l, "continent") {
            Some(FieldType::Continent)
        } else if eq_lit(&l, "country") {
            Some(FieldType::Country)
        } else if eq_lit(&l, "region") {
            Some(FieldType::Region)
        } else if eq_lit(&l, "city") {
            Some(FieldType::City)
        } else if eq_lit(&l, "latitude") {
            Some(FieldType::Latitude)
        } else if eq_lit(&l, "longitude") {
            Some(FieldType::Longitude)
        } else if eq_lit(&l, "language") {
            Some(FieldType::Language)
        } else if eq_lit(&l, "channelid") {
            Some(FieldType::ChannelId)
        } else if eq_lit(&l, "authorgender") {
            Some(FieldType::AuthorGender)
        } else if eq_lit(&l, "authorverified") {
            Some(FieldType::AuthorVerified)
        } else if eq_lit(&l, "authorverifiedtype") {
            Some(FieldType::AuthorVerifiedType)
        } else if eq_lit(&l, "authorfollowers") {
            Some(FieldType::AuthorFollowers)
        } else if eq_lit(&l, "blogname") {
            Some(FieldType::BlogName)
        } else if eq_lit(&l, "parentblogname") {
            Some(FieldType::ParentBlogName)
        } else if eq_lit(&l, "rootblogname") {
            Some(FieldType::RootBlogName)
        } else if eq_lit(&l, "parentpostid") {
            Some(FieldType::ParentPostId)
        } else if eq_lit(&l, "rootpostid") {
            Some(FieldType::RootPostId)
        } else if eq_lit(&l, "tags") {
            Some(FieldType::Tags)
        } else if eq_lit(&l, "brandids") {
            Some(FieldType::BrandIds)
        } else if eq_lit(&l, "objects") {
            Some(FieldType::Objects)
        } else if eq_lit(&l, "engagementtype") {
            Some(FieldType::EngagementType)
        } else if eq_lit(&l, "engagingwith") {
            Some(FieldType::EngagingWith)
        } else if eq_lit(&l, "engagingwithguid") {
            Some(FieldType::EngagingWithGuid)
        } else if eq_lit(&l, "guid") {
            Some(FieldType::Guid)
        } else if eq_lit(&l, "imagetype") {
            Some(FieldType::ImageType)
        } else if eq_lit(&l, "itemreview") {
            Some(FieldType::ItemReview)
        } else if eq_lit(&l, "rating") {
            Some(FieldType::Rating)
        } else if eq_lit(&l, "minuteofday") {
            Some(FieldType::MinuteOfDay)
        } else if eq_lit(&l, "pubtype") {
            Some(FieldType::PubType)
        } else if eq_lit(&l, "publishersubtype") {
            Some(FieldType::PublisherSubType)
        } else if eq_lit(&l, "publication") {
            Some(FieldType::Publication)
        } else if eq_lit(&l, "redditauthorflair") {
            Some(FieldType::RedditAuthorFlair)
        } else if eq_lit(&l, "redditpostflair") {
            Some(FieldType::RedditPostFlair)
        } else if eq_lit(&l, "redditspoiler") {
            Some(FieldType::RedditSpoiler)
        } else if eq_lit(&l, "sensitivecontent") {
            Some(FieldType::SensitiveContent)
        } else if eq_lit(&l, "subreddit") {
            Some(FieldType::Subreddit)
        } else if eq_lit(&l, "subredditnsfw") {
            Some(FieldType::SubredditNSFW)
        } else if eq_lit(&l, "subreddittopics") {
            Some(FieldType::SubredditTopics)
        } else if eq_lit(&l, "topleveldomain") {
            Some(FieldType::TopLevelDomain)
        } else if eq_lit(&l, "weblogtitle") {
            Some(FieldType::WeblogTitle)
        } else if eq_lit(&l, "sentiment") {
            Some(FieldType::Sentiment)
        } else {
            None
        }
    }

    pub fn as_str(&self) -> (r: &'static str)
        ensures
            r@ == field_name(*self),
    {
        match self {
            FieldType::Title => "title",
            FieldType::Site => "site",
            FieldType::Url => "url",
            FieldType::Author => "author",
            FieldType::Links => "links",
            FieldType::Continent => "continent",
            FieldType::Country => "country",
            FieldType::Region => "region",
            FieldType::City => "city",
            FieldType::Latitude => "latitude",
            FieldType::Longitude => "longitude",
            FieldType::Language => "language",
            FieldType::ChannelId => "channelId",
            FieldType::AuthorGender => "authorGender",
            FieldType::AuthorVerified => "authorVerified",
            FieldType::AuthorVerifiedType => "authorVerifiedType",
            FieldType::AuthorFollowers => "authorFollowers",
            FieldType::BlogName => "blogName",
            FieldType::ParentBlogName => "parentBlogName",
            FieldType::RootBlogName => "rootBlogName",
            FieldType::ParentPostId => "parentPostId",
            FieldType::RootPostId => "rootPostId",
            FieldType::Tags => "tags",
            FieldType::BrandIds => "brandIds",
            FieldType::Objects => "objects",
            FieldType::EngagementType => "engagementType",
            FieldType::EngagingWith => "engagingWith",
            FieldType::EngagingWithGuid => "engagingWithGuid",
            FieldType::Guid => "guid",
            FieldType::ImageType => "imageType",
            FieldType::ItemReview => "itemReview",
            FieldType::Rating => "rating",
            FieldType::MinuteOfDay => "minuteOfDay",
            FieldType::PubType => "pubType",
            FieldType::PublisherSubType => "publisherSubType",
            FieldType::Publication => "publication",
            FieldType::RedditAuthorFlair => "redditAuthorFlair",
            FieldType::RedditPostFlair => "redditPostFlair",
            FieldType::RedditSpoiler => "redditSpoiler",
            FieldType::SensitiveContent => "sensitiveContent",
            FieldType::Subreddit => "subreddit",
            FieldType::SubredditNSFW => "subredditNSFW",
            FieldType::SubredditTopics => "subredditTopics",
            FieldType::TopLevelDomain => "topLevelDomain",
            FieldType::WeblogTitle => "weblogTitle",
            FieldType::Sentiment => "sentiment",
        }
    }
}

#[derive(Debug, PartialEq)]
pub enum Term {
    Word { value: String },
    Phrase { value: String },
    Wildcard { value: String },
    Replacement { value: String },
    CaseSensitive { value: String },
    Hashtag { value: String },
    Mention { value: String },
    Emoji { value: String },
}

pub enum TermView {
    Word { value: Seq<char> },
    Phrase { value: Seq<char> },
    Wildcard { value: Seq<char> },
    Replacement { value: Seq<char> },
    CaseSensitive { value: Seq<char> },
    Hashtag { value: Seq<char> },
    Mention { value: Seq<char> },
    Emoji { value: Seq<char> },
}

impl View for Term {
    type V = TermView;

    open spec fn view(&self) -> TermView {
        match self {
            Term::Word { value } => TermView::Word { value: value@ },
            Term::Phrase { value } => TermView::Phrase { value: value@ },
            Term::Wildcard { value } => TermView::Wildcard { value: value@ },
            Term::Replacement { value } => TermView::Replacement { value: value@ },
            Term::CaseSensitive { value } => TermView::CaseSensitive { value: value@ },
            Term::Hashtag { value } => TermView::Hashtag { value: value@ },
            Term::Mention { value } => TermView::Mention { value: value@ },
            Term::Emoji { value } => TermView::Emoji { value: value@ },
        }
    }
}

/// The mathematical value of an `Expression`: strings as character sequences.
#[allow(inconsistent_fields)]
pub enum ExpressionView {
    BooleanOp { operator: BooleanOperator, left: Box<ExpressionView>, right: Option<Box<ExpressionView>>, span: Span },
    Group { expression: Box<ExpressionView>, span: Span },
    Proximity { operator: ProximityOperator, terms: Seq<ExpressionView>, span: Span },
    Field { field: FieldType, value: Box<ExpressionView>, span: Span },
    Range { field: Option<FieldType>, start: Seq<char>, end: Seq<char>, span: Span },
    Term { term: TermView, span: Span },
    Comment { text: Seq<char>, span: Span },
}

pub open spec fn expr_view(e: Expression) -> ExpressionView
    decreases e,
{
    match e {
        Expression::BooleanOp { operator, left, right, span } => ExpressionView::BooleanOp {
            operator,
            left: Box::new(expr_view(*left)),
            right: match right {
                Some(r) => Some(Box::new(expr_view(*r))),
                None => None,
            },
            span,
        },
        Expression::Group { expression, span } => ExpressionView::Group { expression: Box::new(expr_view(*expression)), span },
        Expression::Proximity { operator, terms, span } => ExpressionView::Proximity {
            operator,
            terms: exprs_view(terms@),
            span,
        },
        Expression::Field { field, value, span } => ExpressionView::Field { field, value: Box::new(expr_view(*value)), span },
        Expression::Range { field, start, end, span } => ExpressionView::Range { field, start: start@, end: end@, span },
        Expression::Term { term, span } => ExpressionView::Term { term: term@, span },
        Expression::Comment { text, span } => ExpressionView::Comment { text: text@, span },
    }
}

pub open spec fn exprs_view(s: Seq<Expression>) -> Seq<ExpressionView>
    decreases s,
{
    if s.len() == 0 {
        Seq::empty()
    } else {
        exprs_view(s.drop_last()).push(expr_view(s.last()))
    }
}

/// The view of a list of expressions holds their views, in order.
pub proof fn lemma_exprs_view(s: Seq<Expression>)
    ensures
        exprs_view(s).len() == s.len(),
        forall|i: int| 0 <= i < s.len() ==> #[trigger] exprs_view(s)[i] == s[i]@,
    decreases s.len(),
{
    if s.len() > 0 {
        lemma_exprs_view(s.drop_last());
        assert forall|i: int| 0 <= i < s.len() implies #[trigger] exprs_view(s)[i] == s[i]@ by {
            if i < s.len() - 1 {
                assert(s.drop_last()[i] == s[i]);
            }
        }
    }
}

impl View for Expression {
    type V = ExpressionView;

    open spec fn view(&self) -> ExpressionView {
        expr_view(*self)
    }
}

impl ExpressionView {
    pub open spec fn span(self) -> Span {
        match self {
            ExpressionView::BooleanOp { span, .. } => span,
            ExpressionView::Group { span, .. } => span,
            ExpressionView::Proximity { span, .. } => span,
            ExpressionView::Field { span, .. } => span,
            ExpressionView::Range { span, .. } => span,
            ExpressionView::Term { span, .. } => span,
            ExpressionView::Comment { span, .. } => span,
        }
    }
}

impl Expression {
    pub fn span(&self) -> (r: &Span)
        ensures
            *r == self@.span(),
    {
        match self {
            Expression::BooleanOp { span, .. } => span,
            Expression::Group { span, .. } => span,
            Expression::Proximity { span, .. } => span,
            Expression::Field { span, .. } => span,
            Expression::Range { span, .. } => span,
            Expression::Term { span, .. } => span,
            Expression::Comment { span, .. } => span,
        }
    }
}

impl Clone for Term {
    fn clone(&self) -> (r: Self)
        ensures
            r@ == self@,
    {
        match self {
            Term::Word { value } => Term::Word { value: value.clone() },
            Term::Phrase { value } => Term::Phrase { value: value.clone() },
            Term::Wildcard { value } => Term::Wildcard { value: value.clone() },
            Term::Replacement { value } => Term::Replacement { value: value.clone() },
            Term::CaseSensitive { value } => Term::CaseSensitive { value: value.clone() },
            Term::Hashtag { value } => Term::Hashtag { value: value.clone() },
            Term::Mention { value } => Term::Mention { value: value.clone() },
            Term::Emoji { value } => Term::Emoji { value: value.clone() },
        }
    }
}

impl Clone for Expression {
    fn clone(&self) -> (r: Self)
        ensures
            r@ == self@,
        decreases self,
    {
        match self {
            Expression::BooleanOp { operator, left, right, span } => {
                let l = (**left).clone();
                let r = match right {
                    Some(x) => Some(Box::new((**x).clone())),
                    None => None,
                };
                Expression::BooleanOp { operator: *operator, left: Box::new(l), right: r, span: *span }
            },
            Expression::Group { expression, span } => Expression::Group { expression: Box::new((**expression).clone()), span: *span },
            Expression::Proximity { operator, terms, span } => {
                let mut out: Vec<Expression> = Vec::new();
                let mut i: usize = 0;
                proof {
                    assert forall|k: int| 0 <= k < terms@.len() implies decreases_to!(*self => #[trigger] terms@[k]) by {
                        assert(decreases_to!(*self => *terms));
                        assert(decreases_to!(*terms => terms@));
                        assert(decreases_to!(terms@ => terms@[k]));
                    }
                }
                while i < terms.len()
                    invariant
                        0 <= i <= terms@.len(),
                        forall|k: int| 0 <= k < terms@.len() ==> decreases_to!(*self => #[trigger] terms@[k]),
                        exprs_view(out@) == exprs_view(terms@.take(i as int)),
                    decreases terms@.len() - i,
                {
                    let c = terms[i].clone();
                    let ghost old_out = out@;
                    out.push(c);
                    assert(out@.drop_last() =~= old_out);
                    assert(terms@.take(i + 1).drop_last() =~= terms@.take(i as int));
                                        i += 1;
                }
                assert(terms@.take(terms@.len() as int) =~= terms@);
                Expression::Proximity { operator: *operator, terms: out, span: *span }
            },
            Expression::Field { field, value, span } => Expression::Field { field: *field, value: Box::new((**value).clone()), span: *span },
            Expression::Range { field, start, end, span } => Expression::Range { field: *field, start: start.clone(), end: end.clone(), span: *span },
            Expression::Term { term, span } => Expression::Term { term: term.clone(), span: *span },
            Expression::Comment { text, span } => Expression::Comment { text: text.clone(), span: *span },
        }
    }
}

impl Clone for Query {
    fn clone(&self) -> (r: Self)
        ensures
            r@ == self@,
    {
        Query { expression: self.expression.clone(), span: self.span }
    }
}

pub struct QueryView {
    pub expression: ExpressionView,
    pub span: Span,
}

impl View for Query {
    type V = QueryView;

    open spec fn view(&self) -> QueryView {
        QueryView { expression: self.expression@, span: self.span }
    }
}

/// Looking a field up by name ignores ASCII case: an ASCII name and the same name in
/// capitals (`str::to_ascii_uppercase`) name the same field, or both none.
pub proof fn law_field_lookup_ignores_case(s: Seq<char>)
    requires
        ascii_text(s),
    ensures
        ascii_text(ascii_uppercase_text(s)),
        field_of_lowercase(ascii_lowercase_text(ascii_uppercase_text(s)))
            == field_of_lowercase(ascii_lowercase_text(s)),
{
    let u = ascii_uppercase_text(s);
    assert forall|i: int| 0 <= i < u.len() implies crate::text::ascii(#[trigger] u[i]) by {
        assert(crate::text::ascii(s[i]));
    }
    assert(ascii_lowercase_text(u) =~= ascii_lowercase_text(s));
}

/// Every field's name, looked up again, gives that field back.
#[verifier::rlimit(100)]
pub proof fn law_field_name_round_trip(f: FieldType)
    ensures
        ascii_text(field_name(f)),
        field_of_lowercase(ascii_lowercase_text(field_name(f))) == Some(f),
{
    reveal_strlit("author");
    reveal_strlit("authorFollowers");
    reveal_strlit("authorGender");
    reveal_strlit("authorVerified");
    reveal_strlit("authorVerifiedType");
    reveal_strlit("authorfollowers");
    reveal_strlit("authorgender");
    reveal_strlit("authorverified");
    reveal_strlit("authorverifiedtype");
    reveal_strlit("blogName");
    reveal_strlit("blogname");
    reveal_strlit("brandIds");
    reveal_strlit("brandids");
    reveal_strlit("channelId");
    reveal_strlit("channelid");
    reveal_strlit("city");
    reveal_strlit("continent");
    reveal_strlit("country");
    reveal_strlit("engagementType");
    reveal_strlit("engagementtype");
    reveal_strlit("engagingWith");
    reveal_strlit("engagingWithGuid");
    reveal_strlit("engagingwith");
    reveal_strlit("engagingwithguid");
    reveal_strlit("guid");
    reveal_strlit("imageType");
    reveal_strlit("imagetype");
    reveal_strlit("itemReview");
    reveal_strlit("itemreview");
    reveal_strlit("language");
    reveal_strlit("latitude");
    reveal_strlit("links");
    reveal_strlit("longitude");
    reveal_strlit("minuteOfDay");
    reveal_strlit("minuteofday");
    reveal_strlit("objects");
    reveal_strlit("parentBlogName");
    reveal_strlit("parentPostId");
    reveal_strlit("parentblogname");
    reveal_strlit("parentpostid");
    reveal_strlit("pubType");
    reveal_strlit("publication");
    reveal_strlit("publisherSubType");
    reveal_strlit("publishersubtype");
    reveal_strlit("pubtype");
    reveal_strlit("rating");
    reveal_strlit("redditAuthorFlair");
    reveal_strlit("redditPostFlair");
    reveal_strlit("redditSpoiler");
    reveal_strlit("redditauthorflair");
    reveal_strlit("redditpostflair");
    reveal_strlit("redditspoiler");
    reveal_strlit("region");
    reveal_strlit("rootBlogName");
    reveal_strlit("rootPostId");
    reveal_strlit("rootblogname");
    reveal_strlit("rootpostid");
    reveal_strlit("sensitiveContent");
    reveal_strlit("sensitivecontent");
    reveal_strlit("sentiment");
    reveal_strlit("site");
    reveal_strlit("subreddit");
    reveal_strlit("subredditNSFW");
    reveal_strlit("subredditTopics");
    reveal_strlit("subredditnsfw");
    reveal_strlit("subreddittopics");
    reveal_strlit("tags");
    reveal_strlit("title");
    reveal_strlit("topLevelDomain");
    reveal_strlit("topleveldomain");
    reveal_strlit("url");
    reveal_strlit("weblogTitle");
    reveal_strlit("weblogtitle");
    let n = field_name(f);
    assert(ascii_text(n));
    // In each arm: the lowercased name, then, for each name of the same length that
    // the lookup tries first, a position where the two differ.
    match f {
        FieldType::Title => {
            assert(ascii_lowercase_text(n) =~= "title"@);
        },
        FieldType::Site => {
            assert(ascii_lowercase_text(n) =~= "site"@);
        },
        FieldType::Url => {
            assert(ascii_lowercase_text(n) =~= "url"@);
        },
        FieldType::Author => {
            assert(ascii_lowercase_text(n) =~= "author"@);
        },
        FieldType::Links => {
            assert(ascii_lowercase_text(n) =~= "links"@);
            assert(ascii_lowercase_text(n)[0] != "title"@[0]);
        },
        FieldType::Continent => {
            assert(ascii_lowercase_text(n) =~= "continent"@);
        },
        FieldType::Country => {
            assert(ascii_lowercase_text(n) =~= "country"@);
        },
        FieldType::Region => {
            assert(ascii_lowercase_text(n) =~= "region"@);
            assert(ascii_lowercase_text(n)[0] != "author"@[0]);
        },
        FieldType::City => {
            assert(ascii_lowercase_text(n) =~= "city"@);
            assert(ascii_lowercase_text(n)[0] != "site"@[0]);
        },
        FieldType::Latitude => {
            assert(ascii_lowercase_text(n) =~= "latitude"@);
        },
        FieldType::Longitude => {
            assert(ascii_lowercase_text(n) =~= "longitude"@);
            assert(ascii_lowercase_text(n)[0] != "continent"@[0]);
        },
        FieldType::Language => {
            assert(ascii_lowercase_text(n) =~= "language"@);
            assert(ascii_lowercase_text(n)[2] != "latitude"@[2]);
        },
        FieldType::ChannelId => {
            assert(ascii_lowercase_text(n) =~= "channelid"@);
            assert(ascii_lowercase_text(n)[1] != "continent"@[1]);
            assert(ascii_lowercase_text(n)[0] != "longitude"@[0]);
        },
        FieldType::AuthorGender => {
            assert(ascii_lowercase_text(n) =~= "authorgender"@);
        },
        FieldType::AuthorVerified => {
            assert(ascii_lowercase_text(n) =~= "authorverified"@);
        },
        FieldType::AuthorVerifiedType => {
            assert(ascii_lowercase_text(n) =~= "authorverifiedtype"@);
        },
        FieldType::AuthorFollowers => {
            assert(ascii_lowercase_text(n) =~= "authorfollowers"@);
        },
        FieldType::BlogName => {
            assert(ascii_lowercase_text(n) =~= "blogname"@);
            assert(ascii_lowercase_text(n)[0] != "latitude"@[0]);
            assert(ascii_lowercase_text(n)[0] != "language"@[0]);
        },
        FieldType::ParentBlogName => {
            assert(ascii_lowercase_text(n) =~= "parentblogname"@);
            assert(ascii_lowercase_text(n)[0] != "authorverified"@[0]);
        },
        FieldType::RootBlogName => {
            assert(ascii_lowercase_text(n) =~= "rootblogname"@);
            assert(ascii_lowercase_text(n)[0] != "authorgender"@[0]);
        },
        FieldType::ParentPostId => {
            assert(ascii_lowercase_text(n) =~= "parentpostid"@);
            assert(ascii_lowercase_text(n)[0] != "authorgender"@[0]);
            assert(ascii_lowercase_text(n)[0] != "rootblogname"@[0]);
        },
        FieldType::RootPostId => {
            assert(ascii_lowercase_text(n) =~= "rootpostid"@);
        },
        FieldType::Tags => {
            assert(ascii_lowercase_text(n) =~= "tags"@);
            assert(ascii_lowercase_text(n)[0] != "site"@[0]);
            assert(ascii_lowercase_text(n)[0] != "city"@[0]);
        },
        FieldType::BrandIds => {
            assert(ascii_lowercase_text(n) =~= "brandids"@);
            assert(ascii_lowercase_text(n)[0] != "latitude"@[0]);
            assert(ascii_lowercase_text(n)[0] != "language"@[0]);
            assert(ascii_lowercase_text(n)[1] != "blogname"@[1]);
        },
        FieldType::Objects => {
            assert(ascii_lowercase_text(n) =~= "objects"@);
            assert(ascii_lowercase_text(n)[0] != "country"@[0]);
        },
        FieldType::EngagementType => {
            assert(ascii_lowercase_text(n) =~= "engagementtype"@);
            assert(ascii_lowercase_text(n)[0] != "authorverified"@[0]);
            assert(ascii_lowercase_text(n)[0] != "parentblogname"@[0]);
        },
        FieldType::EngagingWith => {
            assert(ascii_lowercase_text(n) =~= "engagingwith"@);
            assert(ascii_lowercase_text(n)[0] != "authorgender"@[0]);
            assert(ascii_lowercase_text(n)[0] != "rootblogname"@[0]);
            assert(ascii_lowercase_text(n)[0] != "parentpostid"@[0]);
        },
        FieldType::EngagingWithGuid => {
            assert(ascii_lowercase_text(n) =~= "engagingwithguid"@);
        },
        FieldType::Guid => {
            assert(ascii_lowercase_text(n) =~= "guid"@);
            assert(ascii_lowercase_text(n)[0] != "site"@[0]);
            assert(ascii_lowercase_text(n)[0] != "city"@[0]);
            assert(ascii_lowercase_text(n)[0] != "tags"@[0]);
        },
        FieldType::ImageType => {
            assert(ascii_lowercase_text(n) =~= "imagetype"@);
            assert(ascii_lowercase_text(n)[0] != "continent"@[0]);
            assert(ascii_lowercase_text(n)[0] != "longitude"@[0]);
            assert(ascii_lowercase_text(n)[0] != "channelid"@[0]);
        },
        FieldType::ItemReview => {
            assert(ascii_lowercase_text(n) =~= "itemreview"@);
            assert(ascii_lowercase_text(n)[0] != "rootpostid"@[0]);
        },
        FieldType::Rating => {
            assert(ascii_lowercase_text(n) =~= "rating"@);
            assert(ascii_lowercase_text(n)[0] != "author"@[0]);
            assert(ascii_lowercase_text(n)[1] != "region"@[1]);
        },
        FieldType::MinuteOfDay => {
            assert(ascii_lowercase_text(n) =~= "minuteofday"@);
        },
        FieldType::PubType => {
            assert(ascii_lowercase_text(n) =~= "pubtype"@);
            assert(ascii_lowercase_text(n)[0] != "country"@[0]);
            assert(ascii_lowercase_text(n)[0] != "objects"@[0]);
        },
        FieldType::PublisherSubType => {
            assert(ascii_lowercase_text(n) =~= "publishersubtype"@);
            assert(ascii_lowercase_text(n)[0] != "engagingwithguid"@[0]);
        },
        FieldType::Publication => {
            assert(ascii_lowercase_text(n) =~= "publication"@);
            assert(ascii_lowercase_text(n)[0] != "minuteofday"@[0]);
        },
        FieldType::RedditAuthorFlair => {
            assert(ascii_lowercase_text(n) =~= "redditauthorflair"@);
        },
        FieldType::RedditPostFlair => {
            assert(ascii_lowercase_text(n) =~= "redditpostflair"@);
            assert(ascii_lowercase_text(n)[0] != "authorfollowers"@[0]);
        },
        FieldType::RedditSpoiler => {
            assert(ascii_lowercase_text(n) =~= "redditspoiler"@);
        },
        FieldType::SensitiveContent => {
            assert(ascii_lowercase_text(n) =~= "sensitivecontent"@);
            assert(ascii_lowercase_text(n)[0] != "engagingwithguid"@[0]);
            assert(ascii_lowercase_text(n)[0] != "publishersubtype"@[0]);
        },
        FieldType::Subreddit => {
            assert(ascii_lowercase_text(n) =~= "subreddit"@);
            assert(ascii_lowercase_text(n)[0] != "continent"@[0]);
            assert(ascii_lowercase_text(n)[0] != "longitude"@[0]);
            assert(ascii_lowercase_text(n)[0] != "channelid"@[0]);
            assert(ascii_lowercase_text(n)[0] != "imagetype"@[0]);
        },
        FieldType::SubredditNSFW => {
            assert(ascii_lowercase_text(n) =~= "subredditnsfw"@);
            assert(ascii_lowercase_text(n)[0] != "redditspoiler"@[0]);
        },
        FieldType::SubredditTopics => {
            assert(ascii_lowercase_text(n) =~= "subreddittopics"@);
            assert(ascii_lowercase_text(n)[0] != "authorfollowers"@[0]);
            assert(ascii_lowercase_text(n)[0] != "redditpostflair"@[0]);
        },
        FieldType::TopLevelDomain => {
            assert(ascii_lowercase_text(n) =~= "topleveldomain"@);
            assert(ascii_lowercase_text(n)[0] != "authorverified"@[0]);
            assert(ascii_lowercase_text(n)[0] != "parentblogname"@[0]);
            assert(ascii_lowercase_text(n)[0] != "engagementtype"@[0]);
        },
        FieldType::WeblogTitle => {
            assert(ascii_lowercase_text(n) =~= "weblogtitle"@);
            assert(ascii_lowercase_text(n)[0] != "minuteofday"@[0]);
            assert(ascii_lowercase_text(n)[0] != "publication"@[0]);
        },
        FieldType::Sentiment => {
            assert(ascii_lowercase_text(n) =~= "sentiment"@);
            assert(ascii_lowercase_text(n)[0] != "continent"@[0]);
            assert(ascii_lowercase_text(n)[0] != "longitude"@[0]);
            assert(ascii_lowercase_text(n)[0] != "channelid"@[0]);
            assert(ascii_lowercase_text(n)[0] != "imagetype"@[0]);
            assert(ascii_lowercase_text(n)[1] != "subreddit"@[1]);
        },
    }
}

} // verus!
