//! The records that the content handlers read and write, and the tag lists
//! they carry.
use crate::text::{split_on, split_str, trim, trim_str, views};
use vstd::prelude::*;

verus! {

/// The envelope every handler answers with.
pub struct CustomResponse<T> {
    pub status: bool,
    pub data: Option<T>,
    pub message: Option<String>,
}

/// A post as the handlers return it, its tags split into a list.
pub struct Post {
    pub post_id: String,
    pub title: String,
    pub description: String,
    pub published_at: String,
    pub tags: Vec<String>,
    pub content: String,
    pub status: String,
}

/// A post row as the store holds it, its tags one comma-separated text.
pub struct PostResponseDb {
    pub post_id: String,
    pub title: String,
    pub description: String,
    pub published_at: String,
    pub tags: String,
    pub content: String,
    pub status: String,
}

pub struct PostResponse {
    pub post_id: String,
    pub title: String,
    pub description: String,
    pub published_at: String,
    pub tags: Vec<String>,
    pub content: String,
}

pub struct PostsResponse {
    pub posts: Vec<Post>,
}

pub struct UploadPostResponse {
    pub post_id: String,
}

pub struct UploadPostRequest {
    pub title: String,
    pub description: String,
    pub published_at: String,
    pub tags: String,
    pub content: String,
    pub status: String,
}

pub struct UploadKioolResponse {
    pub kiool_id: String,
}

pub struct UploadKioolRequest {
    pub title: String,
    pub description: String,
    pub published_at: String,
    pub tags: String,
    pub content: String,
    pub status: String,
}

pub struct LoginRequest {
    pub user_id: String,
    pub password: String,
}

pub struct UpdatePostRequest {
    pub title: String,
    pub description: String,
    pub published_at: String,
    pub tags: String,
    pub content: String,
    pub status: String,
}

pub struct DeletePostResponse {
    pub post_id: String,
}

pub struct UploadImageResponse {
    pub image_path: String,
}

pub struct UploadImageQueryParmas {
    pub post_id: Option<String>,
    pub image_type: Option<String>,
}

pub struct AddUserRequest {
    pub user_id: String,
    pub password: String,
    pub user_role: String,
}

pub struct Section {
    pub section_id: i32,
    pub section_type: String,
    pub content_data: String,
    pub order_index: i32,
    pub is_active: bool,
    pub created_at: String,
    pub updated_at: String,
}

pub struct CreateSectionRequest {
    pub section_type: String,
    pub content_data: String,
    pub order_index: i32,
}

pub struct UpdateSectionRequest {
    pub section_type: Option<String>,
    pub content_data: Option<String>,
    pub order_index: Option<i32>,
    pub is_active: Option<bool>,
}

pub struct CreateSectionResponse {
    pub section_id: i32,
}

pub struct DeleteSectionResponse {
    pub section_id: i32,
}

/// A tag and the category it belongs to.
pub struct TagWithCategory {
    pub category: String,
    pub tag: String,
}

/// The tags of a stored tag text: none for the empty text, else each
/// comma-separated piece trimmed.
pub open spec fn tag_list(s: Seq<char>) -> Seq<Seq<char>> {
    if s.len() == 0 {
        Seq::empty()
    } else {
        split_on(s, ',').map_values(|p: Seq<char>| trim(p))
    }
}

/// Where the first `::` in `p` at or after `i` starts, if anywhere.
pub open spec fn find_double_colon(p: Seq<char>, i: int) -> Option<int>
    decreases p.len() - i,
{
    if i < 0 || i + 1 >= p.len() {
        None
    } else if p[i] == ':' && p[i + 1] == ':' {
        Some(i)
    } else {
        find_double_colon(p, i + 1)
    }
}

/// A `category::tag` piece, both parts trimmed; a piece without `::` holds
/// no tag.
pub open spec fn tag_pair(p: Seq<char>) -> Option<(Seq<char>, Seq<char>)> {
    match find_double_colon(p, 0) {
        Some(k) => Some((trim(p.subrange(0, k)), trim(p.subrange(k + 2, p.len() as int)))),
        None => None,
    }
}

pub open spec fn tag_pairs(pieces: Seq<Seq<char>>) -> Seq<(Seq<char>, Seq<char>)>
    decreases pieces.len(),
{
    if pieces.len() == 0 {
        Seq::empty()
    } else {
        let rest = tag_pairs(pieces.drop_last());
        match tag_pair(pieces.last()) {
            Some(x) => rest.push(x),
            None => rest,
        }
    }
}

/// The `(category, tag)` pairs of a text `category::tag,category::tag,…`.
pub open spec fn tags_with_category(s: Seq<char>) -> Seq<(Seq<char>, Seq<char>)> {
    if s.len() == 0 {
        Seq::empty()
    } else {
        tag_pairs(split_on(s, ','))
    }
}

pub open spec fn pair_views(v: Seq<TagWithCategory>) -> Seq<(Seq<char>, Seq<char>)> {
    v.map_values(|t: TagWithCategory| (t.category@, t.tag@))
}

/// Each comma-separated piece of `s`, trimmed; the empty text is one empty
/// piece.
pub fn split_trimmed(s: &str) -> (r: Vec<String>)
    ensures
        views(r@) == split_on(s@, ',').map_values(|p: Seq<char>| trim(p)),
{
    let mut out: Vec<String> = Vec::new();
    let pieces = split_str(s, ',');
    let ghost all = split_on(s@, ',');
    let mut i: usize = 0;
    while i < pieces.len()
        invariant
            views(pieces@) == all,
            all == split_on(s@, ','),
            i <= pieces@.len(),
            views(out@) == all.subrange(0, i as int).map_values(|p: Seq<char>| trim(p)),
        decreases pieces@.len() - i,
    {
        let piece = trim_str(pieces[i].as_str());
        proof {
            assert(all[i as int] == pieces@[i as int]@);
            assert(views(out@.push(piece)) =~= views(out@).push(piece@));
            assert(all.subrange(0, i + 1).map_values(|p: Seq<char>| trim(p)) =~= all.subrange(
                0,
                i as int,
            ).map_values(|p: Seq<char>| trim(p)).push(trim(all[i as int])));
        }
        out.push(piece);
        i = i + 1;
    }
    proof {
        assert(all.subrange(0, i as int) =~= all);
    }
    out
}

/// The tags of a stored tag text, trimmed.
pub fn split_tags(s: &str) -> (r: Vec<String>)
    ensures
        views(r@) == tag_list(s@),
{
    if s.unicode_len() == 0 {
        let out: Vec<String> = Vec::new();
        assert(views(out@) =~= tag_list(s@));
        return out;
    }
    split_trimmed(s)
}

fn find_double_colon_exec(p: &str) -> (r: Option<usize>)
    ensures
        match find_double_colon(p@, 0) {
            Some(k) => r is Some && r->0 as int == k,
            None => r is None,
        },
        r is Some ==> r->0 + 1 < p@.len(),
{
    let n = p.unicode_len();
    let mut i: usize = 0;
    while n > 0 && i < n - 1
        invariant
            n == p@.len(),
            find_double_colon(p@, 0) == find_double_colon(p@, i as int),
        decreases n - i,
    {
        if p.get_char(i) == ':' && p.get_char(i + 1) == ':' {
            return Some(i);
        }
        i = i + 1;
    }
    None
}

/// Reads `category::tag` pairs out of a comma-separated text. Pieces
/// without `::` are skipped; the empty text holds no pairs.
pub fn parse_tags(tags_str: &str) -> (r: Vec<TagWithCategory>)
    ensures
        pair_views(r@) == tags_with_category(tags_str@),
{
    let mut out: Vec<TagWithCategory> = Vec::new();
    if tags_str.unicode_len() == 0 {
        assert(pair_views(out@) =~= tags_with_category(tags_str@));
        return out;
    }
    let pieces = split_str(tags_str, ',');
    let ghost all = split_on(tags_str@, ',');
    let mut i: usize = 0;
    while i < pieces.len()
        invariant
            views(pieces@) == all,
            all == split_on(tags_str@, ','),
            tags_str@.len() > 0,
            i <= pieces@.len(),
            pair_views(out@) == tag_pairs(all.subrange(0, i as int)),
        decreases pieces@.len() - i,
    {
        let piece = pieces[i].as_str();
        proof {
            assert(all[i as int] == piece@);
            assert(all.subrange(0, i + 1).drop_last() =~= all.subrange(0, i as int));
            assert(all.subrange(0, i + 1).last() == piece@);
        }
        match find_double_colon_exec(piece) {
            Some(k) => {
                let n = piece.unicode_len();
                let category = trim_str(piece.substring_char(0, k));
                let tag = trim_str(piece.substring_char(k + 2, n));
                let item = TagWithCategory { category, tag };
                proof {
                    assert(tag_pair(piece@) == Some((item.category@, item.tag@)));
                    assert(pair_views(out@.push(item)) =~= pair_views(out@).push(
                        (item.category@, item.tag@),
                    ));
                }
                out.push(item);
            },
            None => {},
        }
        i = i + 1;
    }
    proof {
        assert(all.subrange(0, i as int) =~= all);
    }
    out
}

impl Post {
    /// A post from its stored row: the same fields, the tag text split into
    /// trimmed tags.
    pub fn from(db: PostResponseDb) -> (r: Post)
        ensures
            r.post_id == db.post_id,
            r.title == db.title,
            r.description == db.description,
            r.published_at == db.published_at,
            views(r.tags@) == tag_list(db.tags@),
            r.content == db.content,
            r.status == db.status,
    {
        let tags = split_tags(db.tags.as_str());
        Post {
            post_id: db.post_id,
            title: db.title,
            description: db.description,
            published_at: db.published_at,
            tags,
            content: db.content,
            status: db.status,
        }
    }
}

} // verus!
