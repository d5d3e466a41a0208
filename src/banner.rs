use vstd::prelude::*;

verus! {

/// A tracked release schedule for an episodic title.
#[derive(Clone, Debug)]
pub struct Banner {
    pub image_binary: Vec<u8>,
    pub title: String,
    pub release_day: String,
    pub release_time: String,
    pub current_episodes: u32,
    pub total_episodes: u32,
}

/// The mathematical value of a [`Banner`].
pub struct BannerView {
    pub image_binary: Seq<u8>,
    pub title: Seq<char>,
    pub release_day: Seq<char>,
    pub release_time: Seq<char>,
    pub current_episodes: u32,
    pub total_episodes: u32,
}

impl View for Banner {
    type V = BannerView;

    open spec fn view(&self) -> BannerView {
        BannerView {
            image_binary: self.image_binary@,
            title: self.title@,
            release_day: self.release_day@,
            release_time: self.release_time@,
            current_episodes: self.current_episodes,
            total_episodes: self.total_episodes,
        }
    }
}

/// Whether two texts hold the same characters.
pub fn same_text(a: &str, b: &str) -> (r: bool)
    ensures
        r == (a@ == b@),
{
    let n = a.unicode_len();
    if n != b.unicode_len() {
        return false;
    }
    let mut i: usize = 0;
    while i < n
        invariant
            n == a@.len(),
            n == b@.len(),
            i <= n,
            a@.subrange(0, i as int) == b@.subrange(0, i as int),
        decreases n - i,
    {
        if a.get_char(i) != b.get_char(i) {
            return false;
        }
        assert(a@.subrange(0, i + 1) =~= a@.subrange(0, i as int).push(a@[i as int]));
        assert(b@.subrange(0, i + 1) =~= b@.subrange(0, i as int).push(b@[i as int]));
        i = i + 1;
    }
    assert(a@ =~= a@.subrange(0, n as int));
    assert(b@ =~= b@.subrange(0, n as int));
    true
}

/// Copies a byte buffer.
pub fn copy_bytes(b: &Vec<u8>) -> (r: Vec<u8>)
    ensures
        r@ == b@,
{
    let mut r: Vec<u8> = Vec::with_capacity(b.len());
    let mut i: usize = 0;
    while i < b.len()
        invariant
            i <= b.len(),
            r@ == b@.subrange(0, i as int),
        decreases b.len() - i,
    {
        r.push(b[i]);
        i = i + 1;
        assert(r@ =~= b@.subrange(0, i as int));
    }
    assert(r@ =~= b@);
    r
}

impl Banner {
    /// A copy of this banner with the same value.
    pub fn duplicate(&self) -> (r: Banner)
        ensures
            r@ == self@,
    {
        Banner {
            image_binary: copy_bytes(&self.image_binary),
            title: self.title.clone(),
            release_day: self.release_day.clone(),
            release_time: self.release_time.clone(),
            current_episodes: self.current_episodes,
            total_episodes: self.total_episodes,
        }
    }
}

/// Number of a weekday name counted from Sunday (0) to Saturday (6);
/// `None` for a text that names no weekday.
pub open spec fn weekday_number_spec(day: Seq<char>) -> Option<u8> {
    if day == "Sunday"@ {
        Some(0u8)
    } else if day == "Monday"@ {
        Some(1u8)
    } else if day == "Tuesday"@ {
        Some(2u8)
    } else if day == "Wednesday"@ {
        Some(3u8)
    } else if day == "Thursday"@ {
        Some(4u8)
    } else if day == "Friday"@ {
        Some(5u8)
    } else if day == "Saturday"@ {
        Some(6u8)
    } else {
        None
    }
}

/// Number of the weekday that `day` names, counted from Sunday.
pub fn weekday_number(day: &str) -> (r: Option<u8>)
    ensures
        r == weekday_number_spec(day@),
{
    if same_text(day, "Sunday") {
        Some(0)
    } else if same_text(day, "Monday") {
        Some(1)
    } else if same_text(day, "Tuesday") {
        Some(2)
    } else if same_text(day, "Wednesday") {
        Some(3)
    } else if same_text(day, "Thursday") {
        Some(4)
    } else if same_text(day, "Friday") {
        Some(5)
    } else if same_text(day, "Saturday") {
        Some(6)
    } else {
        None
    }
}

} // verus!
