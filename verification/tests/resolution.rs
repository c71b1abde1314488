use route_resolver::{Error, Route, RouteList, RouteOutput};

fn route(path: &str, has_sub_routes: bool) -> Route {
    Route {
        path: path.to_string(),
        has_sub_routes,
    }
}

fn route_list_1() -> (RouteList, RouteList) {
    let sub = RouteList {
        routes: vec![route(":id", false)],
    };
    let root = RouteList {
        routes: vec![route(":id", true), route("about", false)],
    };
    (root, sub)
}

fn route_list_2() -> RouteList {
    RouteList {
        routes: vec![route("about", false)],
    }
}

fn route_list_3() -> RouteList {
    RouteList {
        routes: vec![route("", false)],
    }
}

#[test]
fn test_ok() {
    let (root, nested) = route_list_1();

    {
        let absolute_path = "/123/456";
        let relative_path = &absolute_path[1..];

        let RouteOutput {
            sub_path,
            route,
            params,
        } = root.route(relative_path).unwrap();
        assert_eq!(route.path, ":id");
        assert_eq!(params.get("id"), Some(&"123".to_string()));

        assert!(route.has_sub_routes);
        let sub = &nested;

        let RouteOutput {
            sub_path,
            route,
            params,
        } = sub.route(&sub_path).unwrap();
        assert_eq!(route.path, ":id");
        assert_eq!(params.get("id"), Some(&"456".to_string()));
        assert_eq!(sub_path, "");
    }

    {
        let absolute_path = "/about";
        let relative_path = &absolute_path[1..];

        let RouteOutput {
            sub_path,
            route,
            params,
        } = root.route(relative_path).unwrap();
        assert_eq!(route.path, "about");
        assert_eq!(sub_path, "");
        assert_eq!(params.len(), 0);
    }

    {
        let absolute_path = "/about/123";
        let relative_path = &absolute_path[1..];

        let RouteOutput {
            sub_path,
            route,
            params,
        } = root.route(relative_path).unwrap();
        assert_eq!(route.path, ":id");
        assert_eq!(params.get("id"), Some(&"about".to_string()));
        assert_eq!(sub_path, "123".to_string());
    }
}

#[test]
fn test_index() {
    let root = route_list_3();

    let absolute_path = "/";
    let relative_path = &absolute_path[1..];

    let RouteOutput {
        sub_path,
        route,
        params,
    } = root.route(relative_path).unwrap();
    assert_eq!(route.path, "");
    assert_eq!(sub_path, "");
    assert_eq!(params.len(), 0);
}

#[test]
fn test_combined_segment() {
    let root = RouteList {
        routes: vec![route("1/2", false)],
    };

    let absolute_path = "/1/2";
    let relative_path = &absolute_path[1..];

    let RouteOutput {
        sub_path,
        route,
        params,
    } = root.route(relative_path).unwrap();
    assert_eq!(route.path, "1/2");
    assert_eq!(params.len(), 0);
    assert_eq!(sub_path, "");
}

#[test]
fn test_not_found() {
    let root = route_list_2();

    {
        let absolute_path = "/about/123";
        let relative_path = &absolute_path[1..];

        assert_eq!(root.route(relative_path).unwrap_err(), Error::NotFound);
    }

    {
        let absolute_path = "/about2";
        let relative_path = &absolute_path[1..];

        assert_eq!(root.route(relative_path).unwrap_err(), Error::NotFound);
    }
}

#[test]
fn test_invalid_path() {
    let root = route_list_2();

    let absolute_path = "/about/123";

    assert_eq!(root.route(absolute_path).unwrap_err(), Error::InvalidPath);
}

#[test]
fn test_sub_index() {
    let sub = RouteList {
        routes: vec![route("", false)],
    };
    let root = RouteList {
        routes: vec![route("sub", true), route("*", false)],
    };

    {
        let absolute_path = "/sub";
        let relative_path = &absolute_path[1..];

        let RouteOutput {
            sub_path,
            route,
            params,
        } = root.route(relative_path).unwrap();
        assert_eq!(sub_path, "");
        assert_eq!(route.path, "sub");
        assert_eq!(params.len(), 0);
    }

    {
        let absolute_path = "/sub/";
        let relative_path = &absolute_path[1..];

        let RouteOutput {
            sub_path,
            route,
            params,
        } = root.route(relative_path).unwrap();
        assert_eq!(sub_path, "");
        assert_eq!(route.path, "sub");
        assert_eq!(params.len(), 0);
    }

    let index = sub.route("").unwrap();
    assert_eq!(index.route.path, "");
}
