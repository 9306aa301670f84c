//! Build configuration: cache directory, image size buckets, layout width,
//! JPEG quality, feed settings, and the normalization applied after loading.

use vstd::prelude::*;

use crate::strutil::{
    chars_to_string, contains_u32, spec_trim, spec_trim_char, spec_trim_end_char, str_to_chars,
    subvec, trim_char, trim_end_char, trim_str,
};

verus! {

#[derive(Debug, Clone)]
pub struct Config {
    pub timings: bool,
    pub root_url: Option<String>,
    pub math: MathConfig,
    pub html: HtmlConfig,
    pub images: ImagesConfig,
    pub feed: FeedConfig,
}

#[derive(Debug, Clone)]
pub struct MathConfig {
    pub prefer_persistent: bool,
    pub command: Option<String>,
}

#[derive(Debug, Clone)]
pub struct HtmlConfig {
    pub template_path: String,
    pub css_href: String,
    pub blog_dir: Option<String>,
}

#[derive(Debug, Clone)]
pub struct ImagesConfig {
    pub cache_dir: String,
    pub base_dir: Option<String>,
    pub img_root_url: Option<String>,
    pub sizes: Vec<u32>,
    pub display_sizes: Vec<u32>,
    pub meta_size: Option<u32>,
    pub jpeg_quality: u8,
    pub layout_width: u32,
    pub remote_fetch_timeout_secs: u64,
}

#[derive(Debug, Clone)]
pub struct FeedConfig {
    pub enabled: bool,
    pub output_path: String,
    pub title: Option<String>,
    pub description: Option<String>,
    pub link: Option<String>,
    pub limit: Option<usize>,
}

impl Default for MathConfig {
    fn default() -> (r: Self)
        ensures
            !r.prefer_persistent,
            r.command is None,
    {
        MathConfig { prefer_persistent: false, command: None }
    }
}

impl Default for HtmlConfig {
    fn default() -> (r: Self)
        ensures
            r.template_path@ == "static/template.html"@,
            r.css_href@ == "static/styles.css"@,
            r.blog_dir matches Some(b) && b@ == "blog"@,
    {
        HtmlConfig {
            template_path: "static/template.html".to_owned(),
            css_href: "static/styles.css".to_owned(),
            blog_dir: Some("blog".to_owned()),
        }
    }
}

impl Default for FeedConfig {
    fn default() -> (r: Self)
        ensures
            r.enabled,
            r.output_path@ == "rss.xml"@,
            r.title is None,
            r.description is None,
            r.link is None,
            r.limit is None,
    {
        FeedConfig {
            enabled: true,
            output_path: "rss.xml".to_owned(),
            title: None,
            description: None,
            link: None,
            limit: None,
        }
    }
}

impl Default for ImagesConfig {
    fn default() -> (r: Self)
        ensures
            r.cache_dir@ == "img"@,
            r.base_dir is None,
            r.img_root_url is None,
            r.sizes@ == seq![480u32, 800u32, 1200u32],
            r.display_sizes@ == Seq::<u32>::empty(),
            r.meta_size is None,
            r.jpeg_quality == 85,
            r.layout_width == 1200,
            r.remote_fetch_timeout_secs == 10,
    {
        let mut sizes: Vec<u32> = Vec::new();
        sizes.push(480);
        sizes.push(800);
        sizes.push(1200);
        assert(sizes@ =~= seq![480u32, 800u32, 1200u32]);
        ImagesConfig {
            cache_dir: "img".to_owned(),
            base_dir: None,
            img_root_url: None,
            sizes,
            display_sizes: Vec::new(),
            meta_size: None,
            jpeg_quality: 85,
            layout_width: 1200,
            remote_fetch_timeout_secs: 10,
        }
    }
}

impl Default for Config {
    fn default() -> (r: Self)
        ensures
            !r.timings,
            r.root_url is None,
    {
        Config {
            timings: false,
            root_url: None,
            math: MathConfig::default(),
            html: HtmlConfig::default(),
            images: ImagesConfig::default(),
            feed: FeedConfig::default(),
        }
    }
}

/// Strictly ascending order.
pub open spec fn strictly_sorted(s: Seq<u32>) -> bool {
    forall|i: int, j: int| 0 <= i < j < s.len() ==> s[i] < s[j]
}

/// Inserts `x` into a strictly sorted vector, keeping it strictly sorted
/// and duplicate-free.
fn insert_sorted_unique(r: &mut Vec<u32>, x: u32)
    requires
        strictly_sorted(old(r)@),
    ensures
        strictly_sorted(final(r)@),
        forall|y: u32| final(r)@.contains(y) <==> (old(r)@.contains(y) || y == x),
{
    let mut i: usize = 0;
    while i < r.len() && r[i] < x
        invariant
            i <= r.len(),
            strictly_sorted(r@),
            r@ == old(r)@,
            forall|j: int| 0 <= j < i ==> r@[j] < x,
        decreases r.len() - i,
    {
        i = i + 1;
    }
    if i < r.len() && r[i] == x {
        proof {
            assert(old(r)@.contains(x)) by {
                assert(old(r)@[i as int] == x);
            }
        }
        return ;
    }
    let ghost oldseq = r@;
    r.insert(i, x);
    proof {
        assert(r@ == oldseq.insert(i as int, x));
        assert forall|a: int, b: int| 0 <= a < b < r@.len() implies r@[a] < r@[b] by {
            if a < i && b == i {
            } else if a == i && b > i {
                assert(r@[b] == oldseq[b - 1]);
                assert(oldseq[b - 1] > x || oldseq[b - 1] == x || oldseq[b - 1] < x);
                if b - 1 > i {
                    assert(oldseq[i as int] < oldseq[b - 1]);
                }
            } else if a < i && b > i {
                assert(r@[a] == oldseq[a] && r@[b] == oldseq[b - 1]);
            } else if a > i && b > i {
                assert(r@[a] == oldseq[a - 1] && r@[b] == oldseq[b - 1]);
            }
        }
        assert forall|y: u32| final(r)@.contains(y) implies (oldseq.contains(y) || y == x) by {
            let k = choose|k: int| 0 <= k < r@.len() && r@[k] == y;
            if k < i {
                assert(oldseq[k] == y);
            } else if k > i {
                assert(oldseq[k - 1] == y);
            }
        }
        assert forall|y: u32| (oldseq.contains(y) || y == x) implies final(r)@.contains(y) by {
            if y == x {
                assert(r@[i as int] == y);
            } else {
                let k = choose|k: int| 0 <= k < oldseq.len() && oldseq[k] == y;
                if k < i {
                    assert(r@[k] == y);
                } else {
                    assert(r@[k + 1] == y);
                }
            }
        }
    }
}

/// The positive members of `v`, deduplicated and sorted ascending.
pub fn sorted_unique_positive(v: &Vec<u32>) -> (r: Vec<u32>)
    ensures
        strictly_sorted(r@),
        forall|y: u32| r@.contains(y) <==> (v@.contains(y) && y > 0),
{
    let mut r: Vec<u32> = Vec::new();
    let mut i: usize = 0;
    while i < v.len()
        invariant
            i <= v.len(),
            strictly_sorted(r@),
            forall|y: u32| r@.contains(y) <==> (v@.subrange(0, i as int).contains(y) && y > 0),
        decreases v.len() - i,
    {
        let ghost pre = r@;
        if v[i] > 0 {
            insert_sorted_unique(&mut r, v[i]);
        }
        i = i + 1;
        proof {
            let prefix = v@.subrange(0, i as int);
            assert(prefix.drop_last() =~= v@.subrange(0, i - 1));
            let oldprefix = v@.subrange(0, i - 1);
            assert forall|y: u32| r@.contains(y) implies (prefix.contains(y) && y > 0) by {
                if y == v@[i - 1] && v@[i - 1] > 0 {
                    assert(prefix[i - 1] == y);
                } else {
                    assert(pre.contains(y));
                    let k = choose|k: int| 0 <= k < oldprefix.len() && oldprefix[k] == y;
                    assert(prefix[k] == y);
                }
            }
            assert forall|y: u32| (prefix.contains(y) && y > 0) implies r@.contains(y) by {
                let k = choose|k: int| 0 <= k < prefix.len() && prefix[k] == y;
                if k == i - 1 {
                    assert(y == v@[i - 1]);
                } else {
                    assert(oldprefix[k] == y);
                }
            }
        }
    }
    proof {
        assert(v@.subrange(0, v.len() as int) =~= v@);
    }
    r
}

impl ImagesConfig {
    /// Repairs a loaded image configuration: positive, sorted, deduplicated
    /// size buckets (defaulting to the layout width), display sizes
    /// restricted to the size buckets, clamped JPEG quality, defaulted
    /// cache directory, layout width and fetch timeout, and a trimmed
    /// asset-host prefix.
    pub fn normalize(&mut self)
        ensures
            final(self).cache_dir@ == if spec_trim(old(self).cache_dir@).len() == 0 {
                "img"@
            } else {
                old(self).cache_dir@
            },
            final(self).base_dir == old(self).base_dir,
            strictly_sorted(final(self).sizes@),
            final(self).sizes@.len() > 0,
            (exists|y: u32| old(self).sizes@.contains(y) && y > 0) ==> (forall|y: u32|
                final(self).sizes@.contains(y) <==> (old(self).sizes@.contains(y) && y > 0)),
            !(exists|y: u32| old(self).sizes@.contains(y) && y > 0) ==> final(self).sizes@ == seq![
                if old(self).layout_width > 0 {
                    old(self).layout_width
                } else {
                    1u32
                },
            ],
            strictly_sorted(final(self).display_sizes@),
            final(self).display_sizes@.len() > 0,
            forall|y: u32|
                final(self).display_sizes@.contains(y) ==> final(self).sizes@.contains(y),
            final(self).layout_width == if old(self).layout_width == 0 {
                1200u32
            } else {
                old(self).layout_width
            },
            final(self).meta_size == match old(self).meta_size {
                Option::None => Option::<u32>::None,
                Option::Some(v) => if v != 0 && final(self).sizes@.contains(v) {
                    Option::Some(v)
                } else {
                    Option::<u32>::None
                },
            },
            final(self).jpeg_quality == if old(self).jpeg_quality < 10 {
                10u8
            } else if old(self).jpeg_quality > 100 {
                100u8
            } else {
                old(self).jpeg_quality
            },
            final(self).remote_fetch_timeout_secs == if old(self).remote_fetch_timeout_secs == 0 {
                10u64
            } else {
                old(self).remote_fetch_timeout_secs
            },
            match old(self).img_root_url {
                Option::None => final(self).img_root_url is None,
                Option::Some(r) => {
                    let t = spec_trim(r@);
                    if t.len() == 0 {
                        final(self).img_root_url is None
                    } else if t == "/"@ {
                        final(self).img_root_url matches Some(u) && u@ == "/"@
                    } else {
                        final(self).img_root_url matches Some(u) && u@ == spec_trim_end_char(
                            t,
                            '/',
                        )
                    }
                },
            },
    {
        let trimmed_cache = trim_str(self.cache_dir.as_str());
        if trimmed_cache.len() == 0 {
            self.cache_dir = "img".to_owned();
        }
        let mut sizes = sorted_unique_positive(&self.sizes);
        if sizes.len() == 0 {
            let fallback: u32 = if self.layout_width > 0 {
                self.layout_width
            } else {
                1
            };
            sizes.push(fallback);
            assert(sizes@ =~= seq![fallback]);
        } else {
            proof {
                let y0 = sizes@[0];
                assert(sizes@.contains(y0));
            }
        }
        self.sizes = sizes;
        let mut display = sorted_unique_positive(&self.display_sizes);
        let mut filtered: Vec<u32> = Vec::new();
        let mut i: usize = 0;
        while i < display.len()
            invariant
                i <= display.len(),
                strictly_sorted(display@),
                strictly_sorted(filtered@),
                forall|y: u32|
                    filtered@.contains(y) <==> (display@.subrange(0, i as int).contains(y)
                        && self.sizes@.contains(y)),
            decreases display.len() - i,
        {
            let ghost pre = filtered@;
            if contains_u32(&self.sizes, display[i]) {
                proof {
                    assert forall|k: int| 0 <= k < filtered@.len() implies filtered@[k]
                        < display@[i as int] by {
                        let y = filtered@[k];
                        assert(filtered@.contains(y));
                        let m = choose|m: int|
                            0 <= m < i && display@.subrange(0, i as int)[m] == y;
                        assert(display@[m] == y);
                    }
                }
                filtered.push(display[i]);
            }
            i = i + 1;
            proof {
                let prefix = display@.subrange(0, i as int);
                let oldprefix = display@.subrange(0, i - 1);
                assert(prefix.drop_last() =~= oldprefix);
                assert forall|y: u32| pre.contains(y) implies filtered@.contains(y) by {
                    let k2 = choose|k2: int| 0 <= k2 < pre.len() && pre[k2] == y;
                    assert(filtered@[k2] == y);
                }
                assert forall|y: u32| filtered@.contains(y) implies (prefix.contains(y)
                    && self.sizes@.contains(y)) by {
                    if y == display@[i - 1] {
                        assert(prefix[i - 1] == y);
                    } else {
                        assert(pre.contains(y));
                        let k = choose|k: int| 0 <= k < oldprefix.len() && oldprefix[k] == y;
                        assert(prefix[k] == y);
                    }
                }
                assert forall|y: u32| (prefix.contains(y) && self.sizes@.contains(y)) implies
                    filtered@.contains(y) by {
                    let k = choose|k: int| 0 <= k < prefix.len() && prefix[k] == y;
                    if k == i - 1 {
                        assert(y == display@[i - 1]);
                        assert(self.sizes@.contains(display@[i - 1]));
                        assert(filtered@ == pre.push(display@[i - 1]));
                        assert(filtered@[filtered@.len() - 1] == y);
                        assert(filtered@.contains(y));
                    } else {
                        assert(oldprefix[k] == y);
                        assert(oldprefix.contains(y));
                        assert(pre.contains(y));
                        assert(filtered@.contains(y));
                    }
                }
            }
        }
        if filtered.len() == 0 {
            self.display_sizes = copy_u32_vec(&self.sizes);
            proof {
                let y0 = self.sizes@[0];
                assert(self.sizes@.contains(y0));
            }
        } else {
            self.display_sizes = filtered;
        }
        if self.layout_width == 0 {
            self.layout_width = 1200;
        }
        let meta = match self.meta_size {
            Option::None => Option::None,
            Option::Some(v) => {
                if v != 0 && contains_u32(&self.sizes, v) {
                    Option::Some(v)
                } else {
                    Option::None
                }
            },
        };
        self.meta_size = meta;
        if self.jpeg_quality < 10 {
            self.jpeg_quality = 10;
        } else if self.jpeg_quality > 100 {
            self.jpeg_quality = 100;
        }
        if self.remote_fetch_timeout_secs == 0 {
            self.remote_fetch_timeout_secs = 10;
        }
        let root = match &self.img_root_url {
            Option::None => Option::None,
            Option::Some(r) => {
                let t = trim_str(r.as_str());
                if t.len() == 0 {
                    Option::None
                } else {
                    let slash = eq_one_slash(&t);
                    if slash {
                        Option::Some("/".to_owned())
                    } else {
                        let u = trim_end_char(&t, '/');
                        Option::Some(chars_to_string(&u))
                    }
                }
            },
        };
        self.img_root_url = root;
    }
}

/// Copies a vector of sizes.
pub fn copy_u32_vec(v: &Vec<u32>) -> (r: Vec<u32>)
    ensures
        r@ == v@,
{
    let mut r: Vec<u32> = Vec::new();
    let mut i: usize = 0;
    while i < v.len()
        invariant
            i <= v.len(),
            r@ == v@.subrange(0, i as int),
        decreases v.len() - i,
    {
        r.push(v[i]);
        i = i + 1;
        assert(v@.subrange(0, i - 1).push(v@[i - 1]) == v@.subrange(0, i as int));
    }
    assert(v@.subrange(0, v.len() as int) == v@);
    r
}

/// Whether the characters are exactly one `/`.
fn eq_one_slash(v: &Vec<char>) -> (r: bool)
    ensures
        r == (v@ == "/"@),
{
    proof {
        reveal_strlit("/");
    }
    if v.len() == 1 && v[0] == '/' {
        assert(v@ =~= "/"@);
        true
    } else {
        assert(v@ != "/"@);
        false
    }
}

impl Config {
    /// Repairs a loaded configuration: the site root URL loses trailing
    /// slashes (unless it is exactly `/`), the blog directory is trimmed
    /// of whitespace and slashes (emptied to none), and the feed and
    /// image sections are normalized.
    pub fn normalize(&mut self)
        ensures
            match old(self).root_url {
                Option::None => final(self).root_url is None,
                Option::Some(r) => if r@ == "/"@ {
                    final(self).root_url matches Some(u) && u@ == r@
                } else {
                    final(self).root_url matches Some(u) && u@ == spec_trim_end_char(r@, '/')
                },
            },
            match old(self).html.blog_dir {
                Option::None => final(self).html.blog_dir is None,
                Option::Some(b) => {
                    let t = spec_trim_char(spec_trim(b@), '/');
                    if spec_trim(b@).len() == 0 || t.len() == 0 {
                        final(self).html.blog_dir is None
                    } else {
                        final(self).html.blog_dir matches Some(u) && u@ == t
                    }
                },
            },
            final(self).html.template_path == old(self).html.template_path,
            final(self).html.css_href == old(self).html.css_href,
            final(self).timings == old(self).timings,
    {
        let root = match &self.root_url {
            Option::None => Option::None,
            Option::Some(r) => {
                let rv = str_to_chars(r.as_str());
                if eq_one_slash(&rv) {
                    Option::Some(r.clone())
                } else {
                    let u = trim_end_char(&rv, '/');
                    Option::Some(chars_to_string(&u))
                }
            },
        };
        self.root_url = root;
        let blog = match &self.html.blog_dir {
            Option::None => Option::None,
            Option::Some(b) => {
                let t = trim_str(b.as_str());
                if t.len() == 0 {
                    Option::None
                } else {
                    let t2 = trim_char(&t, '/');
                    if t2.len() == 0 {
                        Option::None
                    } else {
                        Option::Some(chars_to_string(&t2))
                    }
                }
            },
        };
        self.html.blog_dir = blog;
        self.feed.normalize();
        self.images.normalize();
    }
}

impl FeedConfig {
    /// Repairs a loaded feed configuration: the output path is trimmed and
    /// defaulted, empty titles, descriptions and links become none, and a
    /// zero item limit becomes none.
    pub fn normalize(&mut self)
        ensures
            final(self).enabled == old(self).enabled,
            final(self).output_path@ == if spec_trim(old(self).output_path@).len() == 0 {
                "rss.xml"@
            } else {
                spec_trim(old(self).output_path@)
            },
            match old(self).title {
                Option::None => final(self).title is None,
                Option::Some(t) => if spec_trim(t@).len() == 0 {
                    final(self).title is None
                } else {
                    final(self).title matches Some(u) && u@ == spec_trim(t@)
                },
            },
            match old(self).description {
                Option::None => final(self).description is None,
                Option::Some(t) => if spec_trim(t@).len() == 0 {
                    final(self).description is None
                } else {
                    final(self).description matches Some(u) && u@ == spec_trim(t@)
                },
            },
            match old(self).link {
                Option::None => final(self).link is None,
                Option::Some(t) => if spec_trim(t@).len() == 0 {
                    final(self).link is None
                } else {
                    final(self).link matches Some(u) && u@ == spec_trim(t@)
                },
            },
            final(self).limit == match old(self).limit {
                Option::None => Option::<usize>::None,
                Option::Some(l) => if l == 0 {
                    Option::<usize>::None
                } else {
                    Option::Some(l)
                },
            },
    {
        let t = trim_str(self.output_path.as_str());
        if t.len() == 0 {
            self.output_path = "rss.xml".to_owned();
        } else {
            self.output_path = chars_to_string(&t);
        }
        self.title = trim_opt(&self.title);
        self.description = trim_opt(&self.description);
        self.link = trim_opt(&self.link);
        let limit = match self.limit {
            Option::Some(0) => Option::None,
            other => other,
        };
        self.limit = limit;
    }
}

/// Trims an optional string of whitespace, turning an empty result into none.
fn trim_opt(v: &Option<String>) -> (r: Option<String>)
    ensures
        match v {
            Option::None => r is None,
            Option::Some(t) => if spec_trim(t@).len() == 0 {
                r is None
            } else {
                r matches Some(u) && u@ == spec_trim(t@)
            },
        },
{
    match v {
        Option::None => Option::None,
        Option::Some(t) => {
            let tv = trim_str(t.as_str());
            if tv.len() == 0 {
                Option::None
            } else {
                Option::Some(chars_to_string(&tv))
            }
        },
    }
}

/// The default configuration file path beside a given input file: the
/// input's directory joined with `dllup.toml`. Trailing slashes on the
/// input are ignored, and the directory keeps no trailing slashes of its
/// own; an input without a directory resolves beside it, an empty or
/// all-slash input under the working directory.
pub fn default_config_path(input_path: &str) -> (r: String)
    ensures
        ({
            let t = crate::strutil::spec_trim_end_char(input_path@, '/');
            if t.len() == 0 {
                r@ == "./dllup.toml"@
            } else {
                let cut = spec_tail_after_last_slash(t);
                if cut == 0 {
                    r@ == "dllup.toml"@
                } else {
                    let prefix = crate::strutil::spec_trim_end_char(t.subrange(0, cut - 1), '/');
                    if prefix.len() == 0 {
                        r@ == "/dllup.toml"@
                    } else {
                        r@ == prefix + "/dllup.toml"@
                    }
                }
            }
        }),
{
    let v = str_to_chars(input_path);
    let t = trim_end_char(&v, '/');
    if t.len() == 0 {
        return "./dllup.toml".to_owned();
    }
    let mut i: usize = t.len();
    while i > 0 && t[i - 1] != '/'
        invariant
            i <= t.len(),
            forall|j: int| i <= j < t.len() ==> t@[j] != '/',
        decreases i,
    {
        i = i - 1;
    }
    proof {
        lemma_tail_after_last_slash_unique(t@, i as int);
    }
    if i == 0 {
        return "dllup.toml".to_owned();
    }
    let head = subvec(&t, 0, i - 1);
    let prefix = trim_end_char(&head, '/');
    if prefix.len() == 0 {
        "/dllup.toml".to_owned()
    } else {
        let mut out = prefix;
        crate::strutil::append_str(&mut out, "/dllup.toml");
        chars_to_string(&out)
    }
}

/// Index one past the last `/` of `s`, or zero when there is none.
pub open spec fn spec_tail_after_last_slash(s: Seq<char>) -> int
    decreases s.len(),
{
    if s.len() == 0 {
        0
    } else if s.last() == '/' {
        s.len() as int
    } else {
        spec_tail_after_last_slash(s.drop_last())
    }
}

proof fn lemma_tail_after_last_slash_unique(s: Seq<char>, i: int)
    requires
        0 <= i <= s.len(),
        forall|j: int| i <= j < s.len() ==> s[j] != '/',
        i > 0 ==> s[i - 1] == '/',
    ensures
        i == spec_tail_after_last_slash(s),
    decreases s.len(),
{
    if s.len() == 0 {
    } else if s.last() == '/' {
        assert(i == s.len()) by {
            if i < s.len() {
                assert(s[s.len() - 1] != '/');
            }
        }
    } else {
        assert forall|j: int| i <= j < s.drop_last().len() implies s.drop_last()[j] != '/' by {
            assert(s.drop_last()[j] == s[j]);
        }
        lemma_tail_after_last_slash_unique(s.drop_last(), i);
    }
}

} // verus!
