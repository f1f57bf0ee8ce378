use vstd::prelude::*;

verus! {

/// The screens the application can navigate between.
#[derive(Debug, Clone, Copy, PartialEq, Eq, Structural)]
pub enum Route {
    Home,
    Converter,
    KeyGenerator,
    Encrypter,
    Decrypter,
    FileHasher,
}

/// The label shown for each screen.
pub open spec fn route_label(r: Route) -> Seq<char> {
    match r {
        Route::Home => "Home"@,
        Route::Converter => "Converter"@,
        Route::KeyGenerator => "Key generator"@,
        Route::Encrypter => "Encrypter"@,
        Route::Decrypter => "Decrypter"@,
        Route::FileHasher => "File hasher"@,
    }
}

impl Route {
    /// Every screen, in navigation order.
    pub fn all() -> (r: [Route; 6])
        ensures
            r@ == seq![Route::Home, Route::Converter, Route::KeyGenerator, Route::Encrypter, Route::Decrypter, Route::FileHasher],
    {
        [Route::Home, Route::Converter, Route::KeyGenerator, Route::Encrypter, Route::Decrypter, Route::FileHasher]
    }

    /// The label of this screen.
    pub fn label(&self) -> (r: &'static str)
        ensures
            r@ == route_label(*self),
    {
        match self {
            Route::Home => "Home",
            Route::Converter => "Converter",
            Route::KeyGenerator => "Key generator",
            Route::Encrypter => "Encrypter",
            Route::Decrypter => "Decrypter",
            Route::FileHasher => "File hasher",
        }
    }
}

} // verus!
